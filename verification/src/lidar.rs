//! Shared data model: samples and turns.

use vstd::prelude::*;

verus! {

/// One distance reading. `angle` is in thousandths of a degree
/// (millidegrees), signed because some protocols centre their angular
/// span on zero. `distance` is in millimeters, `quality` is the
/// protocol's confidence / signal-strength value.
#[derive(Copy, Clone, Debug, PartialEq, Eq, Structural)]
pub struct Sample {
    pub angle: i32,
    pub distance: u16,
    pub quality: u16,
}

/// One full rotation of the sensor: an ordered sequence of sample
/// slots. A slot holds `None` where the sensor reported an invalid
/// reading, so positional / angular alignment is preserved.
pub struct Turn {
    pub samples: Vec<Option<Sample>>,
}

impl Turn {
    /// True when every slot of the turn is filled. Turns built through
    /// `push` alone satisfy this, which makes `last_angle` total.
    pub open spec fn all_present(&self) -> bool {
        forall|i: int| 0 <= i < self.samples@.len() ==> self.samples@[i] is Some
    }

    pub fn new() -> (t: Turn)
        ensures
            t.samples@.len() == 0,
            t.all_present(),
    {
        Turn { samples: Vec::new() }
    }

    /// Angle of the most recent sample, or 0 for an empty turn.
    pub fn last_angle(&self) -> (a: i32)
        requires
            self.all_present(),
        ensures
            self.samples@.len() == 0 ==> a == 0,
            self.samples@.len() > 0 ==> a == self.samples@.last().unwrap().angle,
    {
        match self.samples.last() {
            Some(s) => s.unwrap().angle,
            None => 0,
        }
    }

    pub fn push(&mut self, s: Sample)
        ensures
            final(self).samples@ == old(self).samples@.push(Some(s)),
    {
        self.samples.push(Some(s));
    }
}

/// Angle of the last slot of a turn, 0 for an empty turn.
pub open spec fn last_angle_spec(t: Seq<Option<Sample>>) -> int {
    if t.len() == 0 {
        0
    } else {
        t.last().unwrap().angle as int
    }
}

/// One step of turn aggregation: a sample whose angle is below the
/// last recorded angle wraps past the rotation boundary, which seals
/// the in-progress turn and starts a new one with that sample;
/// otherwise the sample is appended.
pub open spec fn agg_step(t: Seq<Option<Sample>>, s: Sample) -> (
    Seq<Option<Sample>>,
    Option<Seq<Option<Sample>>>,
) {
    if (s.angle as int) < last_angle_spec(t) {
        (seq![Some(s)], Some(t))
    } else {
        (t.push(Some(s)), None)
    }
}

/// `agg_step` folded over a sequence of samples: the in-progress turn
/// after all of them, and the turns sealed along the way, in order.
pub open spec fn agg_run(t: Seq<Option<Sample>>, ss: Seq<Sample>) -> (
    Seq<Option<Sample>>,
    Seq<Seq<Option<Sample>>>,
)
    decreases ss.len(),
{
    if ss.len() == 0 {
        (t, Seq::empty())
    } else {
        let (t1, sealed) = agg_step(t, ss[0]);
        let (t2, rest) = agg_run(t1, ss.drop_first());
        (t2, seal_seq(sealed) + rest)
    }
}

/// A sealed turn as a one-element sequence, nothing as an empty one.
pub open spec fn seal_seq(o: Option<Seq<Option<Sample>>>) -> Seq<Seq<Option<Sample>>> {
    match o {
        Some(t) => seq![t],
        None => Seq::empty(),
    }
}

/// The sealed turn returned by `TurnAggregator::push`, lifted.
pub open spec fn seal_view(r: Option<Turn>) -> Option<Seq<Option<Sample>>> {
    match r {
        Some(t) => Some(t.samples@),
        None => None,
    }
}

/// The sealed turns returned by `TurnAggregator::push_all`, lifted.
pub open spec fn seals_view(r: Seq<Turn>) -> Seq<Seq<Option<Sample>>> {
    Seq::new(r.len(), |i: int| r[i].samples@)
}

/// Groups the decoded sample stream into full rotations by watching
/// for the angle to wrap back.
pub struct TurnAggregator {
    /// The rotation being accumulated; every slot of it is present.
    pub turn: Turn,
}

impl TurnAggregator {
    pub open spec fn wf(&self) -> bool {
        self.turn.all_present()
    }

    pub fn new() -> (a: TurnAggregator)
        ensures
            a.wf(),
            a.turn.samples@.len() == 0,
    {
        TurnAggregator { turn: Turn::new() }
    }

    /// Feeds one decoded sample; returns the sealed turn when the
    /// sample's angle wraps below the last recorded angle.
    pub fn push(&mut self, s: Sample) -> (sealed: Option<Turn>)
        requires
            old(self).wf(),
        ensures
            final(self).wf(),
            final(self).turn.samples@ == agg_step(old(self).turn.samples@, s).0,
            seal_view(sealed) == agg_step(old(self).turn.samples@, s).1,
    {
        if s.angle < self.turn.last_angle() {
            let mut t = Turn::new();
            core::mem::swap(&mut t, &mut self.turn);
            self.turn.push(s);
            proof {
                assert(self.turn.samples@ =~= seq![Some(s)]);
            }
            Some(t)
        } else {
            self.turn.push(s);
            None
        }
    }

    /// Feeds a batch of samples in order, returning every turn sealed
    /// along the way.
    pub fn push_all(&mut self, samples: &Vec<Sample>) -> (sealed: Vec<Turn>)
        requires
            old(self).wf(),
        ensures
            final(self).wf(),
            final(self).turn.samples@ == agg_run(old(self).turn.samples@, samples@).0,
            seals_view(sealed@) == agg_run(old(self).turn.samples@, samples@).1,
    {
        let ghost t0 = self.turn.samples@;
        let mut sealed: Vec<Turn> = Vec::new();
        let mut i: usize = 0;
        while i < samples.len()
            invariant
                i <= samples@.len(),
                self.wf(),
                self.turn.samples@ == agg_run(t0, samples@.take(i as int)).0,
                seals_view(sealed@) == agg_run(t0, samples@.take(i as int)).1,
            decreases samples@.len() - i,
        {
            let s = samples[i];
            let out = self.push(s);
            proof {
                lemma_agg_run_snoc(t0, samples@.take(i as int), s);
                assert(samples@.take(i + 1) =~= samples@.take(i as int).push(s));
            }
            if let Some(t) = out {
                sealed.push(t);
            }
            proof {
                assert(seals_view(sealed@) =~= agg_run(t0, samples@.take(i + 1)).1);
            }
            i = i + 1;
        }
        proof {
            assert(samples@.take(samples@.len() as int) =~= samples@);
        }
        sealed
    }
}

/// Single-slot mailbox for completed turns. `publish` overwrites any
/// unread turn (lossy under backpressure, by design) and `take` is a
/// destructive read: a published turn is taken at most once. The
/// acquisition worker and the consumer share it behind a lock owned
/// by the caller.
pub struct TurnSlot {
    pub turn: Option<Turn>,
}

impl TurnSlot {
    pub fn new() -> (s: TurnSlot)
        ensures
            s.turn is None,
    {
        TurnSlot { turn: None }
    }

    /// Stores a completed turn, discarding any turn not yet taken.
    pub fn publish(&mut self, t: Turn)
        ensures
            final(self).turn == Some(t),
    {
        self.turn = Some(t);
    }

    /// Removes and returns the pending turn: after a `take` the slot
    /// is empty, so a second `take` returns nothing.
    pub fn take(&mut self) -> (r: Option<Turn>)
        ensures
            r == old(self).turn,
            final(self).turn is None,
    {
        let mut r: Option<Turn> = None;
        core::mem::swap(&mut r, &mut self.turn);
        r
    }
}

/// Lifecycle of a driver facade: `Stopped <-> Running`. The real
/// worker thread and transport handle live with the caller; this
/// state machine fixes when they may be spawned and decides what the
/// lifecycle calls return.
pub struct Lifecycle {
    pub running: bool,
}

/// The lifecycle state after `stop`: not running, whatever it was
/// before.
pub open spec fn spec_stop(l: Lifecycle) -> Lifecycle {
    Lifecycle { running: false }
}

impl Lifecycle {
    pub fn new() -> (l: Lifecycle)
        ensures
            !l.running,
    {
        Lifecycle { running: false }
    }

    /// Transition to `Running`. Starting an already running driver is
    /// refused, so two workers are never spawned for one driver.
    pub fn start(&mut self) -> (r: Result<(), ()>)
        ensures
            old(self).running ==> r is Err && *final(self) == *old(self),
            !old(self).running ==> r is Ok && final(self).running,
    {
        if self.running {
            Err(())
        } else {
            self.running = true;
            Ok(())
        }
    }

    /// Transition to `Stopped`. Idempotent: stopping a stopped driver
    /// is a no-op, never an error.
    pub fn stop(&mut self)
        ensures
            *final(self) == spec_stop(*old(self)),
            !final(self).running,
    {
        self.running = false;
    }

    pub fn is_running(&self) -> (r: bool)
        ensures
            r == self.running,
    {
        self.running
    }
}

/// Stopping is idempotent: a second `stop` changes nothing, and after
/// any number of stops the driver reports not running.
pub proof fn lemma_stop_twice(l: Lifecycle)
    ensures
        spec_stop(spec_stop(l)) == spec_stop(l),
        !spec_stop(spec_stop(l)).running,
{
}

/// Aggregating one more sample after a run is one further step, and
/// appends whatever that step seals.
pub proof fn lemma_agg_run_snoc(t: Seq<Option<Sample>>, ss: Seq<Sample>, s: Sample)
    ensures
        agg_run(t, ss.push(s)).0 == agg_step(agg_run(t, ss).0, s).0,
        agg_run(t, ss.push(s)).1 == agg_run(t, ss).1 + seal_seq(agg_step(agg_run(t, ss).0, s).1),
    decreases ss.len(),
{
    if ss.len() == 0 {
        let (t1, sealed) = agg_step(t, s);
        assert(ss.push(s)[0] == s);
        assert(ss.push(s).drop_first() =~= Seq::<Sample>::empty());
        assert(agg_run(t1, Seq::<Sample>::empty()).0 == t1);
        assert(agg_run(t1, Seq::<Sample>::empty()).1 =~= Seq::<Seq<Option<Sample>>>::empty());
        assert(agg_run(t, ss.push(s)).0 == t1);
        assert(agg_run(t, ss.push(s)).1 =~= seal_seq(sealed));
        assert(agg_run(t, ss).0 == t);
        assert(agg_run(t, ss).1 + seal_seq(agg_step(agg_run(t, ss).0, s).1) =~= seal_seq(
            agg_step(t, s).1,
        ));
    } else {
        let (t1, sealed) = agg_step(t, ss[0]);
        assert(ss.push(s).drop_first() =~= ss.drop_first().push(s));
        lemma_agg_run_snoc(t1, ss.drop_first(), s);
        assert(seal_seq(sealed) + (agg_run(t1, ss.drop_first()).1 + seal_seq(
            agg_step(agg_run(t1, ss.drop_first()).0, s).1,
        )) =~= (seal_seq(sealed) + agg_run(t1, ss.drop_first()).1) + seal_seq(
            agg_step(agg_run(t1, ss.drop_first()).0, s).1,
        ));
    }
}

/// Feeding samples whose angles never decrease seals nothing: they
/// all join the in-progress turn, in order.
pub proof fn lemma_agg_monotone_no_seal(t: Seq<Option<Sample>>, ss: Seq<Sample>)
    requires
        ss.len() > 0 ==> last_angle_spec(t) <= ss[0].angle as int,
        forall|i: int, j: int|
            0 <= i <= j < ss.len() ==> ss[i].angle as int <= ss[j].angle as int,
    ensures
        agg_run(t, ss).0 == t + ss.map_values(|s: Sample| Some(s)),
        agg_run(t, ss).1 == Seq::<Seq<Option<Sample>>>::empty(),
    decreases ss.len(),
{
    if ss.len() == 0 {
        assert(agg_run(t, ss).0 =~= t + ss.map_values(|s: Sample| Some(s)));
    } else {
        let s0 = ss[0];
        assert(!((s0.angle as int) < last_angle_spec(t)));
        let t1 = t.push(Some(s0));
        assert(last_angle_spec(t1) == s0.angle as int);
        assert(forall|i: int, j: int|
            0 <= i <= j < ss.drop_first().len() ==> ss.drop_first()[i].angle as int
                <= ss.drop_first()[j].angle as int);
        lemma_agg_monotone_no_seal(t1, ss.drop_first());
        assert(t1 + ss.drop_first().map_values(|s: Sample| Some(s)) =~= t + ss.map_values(
            |s: Sample| Some(s),
        ));
        assert(agg_run(t, ss).1 =~= Seq::<Seq<Option<Sample>>>::empty());
    }
}

/// Turn aggregation, end to end: an increasing angle sequence seals
/// nothing, and one following sample with a smaller angle seals a
/// turn holding exactly the prior samples while the new turn begins
/// with the wrap sample.
pub proof fn lemma_turn_wrap(ss: Seq<Sample>, w: Sample)
    requires
        ss.len() > 0,
        0 <= ss[0].angle,
        forall|i: int, j: int|
            0 <= i <= j < ss.len() ==> ss[i].angle as int <= ss[j].angle as int,
        w.angle < ss.last().angle,
    ensures
        agg_run(Seq::empty(), ss).1 == Seq::<Seq<Option<Sample>>>::empty(),
        agg_step(agg_run(Seq::empty(), ss).0, w).1 == Some(
            ss.map_values(|s: Sample| Some(s)),
        ),
        agg_step(agg_run(Seq::empty(), ss).0, w).0 == seq![Some(w)],
{
    lemma_agg_monotone_no_seal(Seq::empty(), ss);
    assert(Seq::empty() + ss.map_values(|s: Sample| Some(s)) =~= ss.map_values(
        |s: Sample| Some(s),
    ));
    let t = agg_run(Seq::<Option<Sample>>::empty(), ss).0;
    assert(t.len() == ss.len());
    assert(t.last() == Some(ss.last()));
    assert(last_angle_spec(t) == ss.last().angle as int);
}

} // verus!
