//! XV11 protocol: fixed 22-byte packets with a 15-bit running checksum.
//!
//! Wire format of one packet: `[0xFA][index: 0xA0..=0xF9][speed:u16le]
//! [4 x (distance14|flags:u16le, strength:u16le)][checksum:u16le]`.
//! Each packet carries four angular slots at one degree apart,
//! starting at four times the index.

use vstd::prelude::*;

use crate::ld06::u16le;
use crate::ld06::u16le_from_slice;
use crate::lidar::Sample;

verus! {

/// Running value of the XV11 checksum over the first `k` little-endian
/// words of `s`: each word is added onto the doubled accumulator.
pub open spec fn xv11_acc(s: Seq<u8>, k: int) -> int
    decreases k,
{
    if k <= 0 {
        0
    } else {
        2 * xv11_acc(s, k - 1) + u16le(s[2 * (k - 1)], s[2 * (k - 1) + 1])
    }
}

/// Largest value `xv11_acc` can reach after `k` words.
pub open spec fn xv11_acc_cap(k: int) -> int
    decreases k,
{
    if k <= 0 {
        0
    } else {
        2 * xv11_acc_cap(k - 1) + 65535
    }
}

/// The 15-bit folded checksum of a 20-byte packet body: the 32-bit
/// running sum over its ten words, its top bits folded back in.
pub open spec fn xv11_checksum(s: Seq<u8>) -> int {
    let acc = xv11_acc(s, 10);
    ((acc % 0x8000) + (acc / 0x8000)) % 0x8000
}

/// Computes the XV11 running checksum of a 20-byte packet body.
pub fn checksum(buffer: &[u8]) -> (r: u16)
    requires
        buffer@.len() == 20,
    ensures
        r as int == xv11_checksum(buffer@),
{
    let mut chk32: u32 = 0;
    let mut k: usize = 0;
    while k < 10
        invariant
            k <= 10,
            buffer@.len() == 20,
            chk32 as int == xv11_acc(buffer@, k as int),
            chk32 as int <= xv11_acc_cap(k as int),
        decreases 10 - k,
    {
        proof {
            assert(xv11_acc_cap(0) == 0);
            assert(xv11_acc_cap(1) == 65535);
            assert(xv11_acc_cap(2) == 196605);
            assert(xv11_acc_cap(3) == 458745);
            assert(xv11_acc_cap(4) == 983025);
            assert(xv11_acc_cap(5) == 2031585);
            assert(xv11_acc_cap(6) == 4128705);
            assert(xv11_acc_cap(7) == 8322945);
            assert(xv11_acc_cap(8) == 16711425);
            assert(xv11_acc_cap(9) == 33488385);
        }
        let lo = buffer[2 * k];
        let hi = buffer[2 * k + 1];
        proof {
            assert((hi as u32) << 8 == hi as u32 * 256) by (bit_vector);
            assert(chk32 << 1 == 2 * chk32) by (bit_vector)
                requires
                    chk32 <= 33488385u32,
            ;
        }
        let d: u32 = lo as u32 + ((hi as u32) << 8);
        proof {
            assert(d == u16le(lo, hi));
        }
        chk32 = (chk32 << 1) + d;
        k = k + 1;
    }
    proof {
        assert(xv11_acc_cap(10) == 2 * xv11_acc_cap(9) + 65535);
        assert(xv11_acc_cap(9) == 33488385) by {
            assert(xv11_acc_cap(0) == 0);
            assert(xv11_acc_cap(1) == 65535);
            assert(xv11_acc_cap(2) == 196605);
            assert(xv11_acc_cap(3) == 458745);
            assert(xv11_acc_cap(4) == 983025);
            assert(xv11_acc_cap(5) == 2031585);
            assert(xv11_acc_cap(6) == 4128705);
            assert(xv11_acc_cap(7) == 8322945);
            assert(xv11_acc_cap(8) == 16711425);
        }
    }
    proof {
        assert(chk32 & 0x7FFF <= 0x7FFF) by (bit_vector);
        assert(chk32 >> 15 <= chk32) by (bit_vector);
    }
    let c0: u32 = (chk32 & 0x7FFF) + (chk32 >> 15);
    let c: u32 = c0 & 0x7FFF;
    proof {
        assert(chk32 & 0x7FFF == chk32 % 0x8000) by (bit_vector);
        assert(chk32 >> 15 == chk32 / 0x8000) by (bit_vector);
        assert(c0 & 0x7FFF == c0 % 0x8000) by (bit_vector);
    }
    c as u16
}

/// The 14-bit distance of a slot: the low 6 bits of the high byte
/// over the low byte; the two top bits of the high byte are flags.
pub open spec fn xv11_distance(d0: u8, d1: u8) -> u16 {
    (((d1 & 0x3F) as int) * 256 + d0 as int) as u16
}

/// Top flag bit: the reading is invalid.
pub open spec fn xv11_invalid(d1: u8) -> bool {
    d1 & 0x80 != 0
}

/// Second flag bit: signal-strength warning.
pub open spec fn xv11_warning(d1: u8) -> bool {
    d1 & 0x40 != 0
}

/// The decoded slot for angular index `angle_index` (degrees) from
/// its four data bytes: present only when neither flag is set. The
/// angle is shifted by -180 degrees and stored in millidegrees.
pub open spec fn xv11_sample(angle_index: int, d0: u8, d1: u8, d2: u8, d3: u8) -> Option<
    Sample,
> {
    if !xv11_invalid(d1) && !xv11_warning(d1) {
        Some(
            Sample {
                angle: ((angle_index - 180) * 1000) as i32,
                distance: xv11_distance(d0, d1),
                quality: u16le(d2, d3),
            },
        )
    } else {
        None
    }
}

/// Decodes one angular slot of a packet.
pub fn decode_data(angle: usize, data: &[u8]) -> (r: Option<Sample>)
    requires
        angle < 360,
        data@.len() == 4,
    ensures
        r == xv11_sample(angle as int, data@[0], data@[1], data@[2], data@[3]),
{
    let d0 = data[0];
    let d1 = data[1];
    let distance: u16 = ((0x3F & d1) as u16) << 8 | d0 as u16;
    proof {
        assert(((0x3F & d1) as u16) << 8 | d0 as u16 == ((d1 & 0x3F) as u16) * 256 + d0 as u16)
            by (bit_vector);
    }
    let invalid = (d1 & 0x80) != 0;
    let warning = (d1 & 0x40) != 0;
    let d2 = data[2];
    let d3 = data[3];
    proof {
        assert(((d3 as u16) << 8 | d2 as u16) as int == d3 as int * 256 + d2 as int)
            by (bit_vector);
    }
    let strength = ((d3 as u16) << 8) | d2 as u16;
    let a: i32 = ((angle as i32) - 180) * 1000;
    if !invalid && !warning {
        Some(Sample { angle: a, distance, quality: strength })
    } else {
        None
    }
}

/// Raw rotational speed field of a packet (sixty-fourths of a
/// rotation per minute on the wire; dividing by 64 gives rpm).
pub open spec fn xv11_speed_raw(b: Seq<u8>) -> u16 {
    u16le(b[2], b[3])
}

/// Whether the checksum trailing a 22-byte packet matches its body.
pub open spec fn xv11_checksum_ok(b: Seq<u8>) -> bool {
    xv11_checksum(b.subrange(0, 20)) == u16le(b[20], b[21]) as int
}

/// The four decoded slots of a packet, at angular indexes
/// `4 * (index - 0xA0) + 0..3`.
pub open spec fn xv11_packet_samples(b: Seq<u8>) -> Seq<Option<Sample>> {
    Seq::new(
        4,
        |i: int|
            xv11_sample(
                (b[1] - 0xA0) * 4 + i,
                b[4 + 4 * i],
                b[5 + 4 * i],
                b[6 + 4 * i],
                b[7 + 4 * i],
            ),
    )
}

/// Full decode of a 22-byte packet: with a good checksum, the raw
/// speed and the four slots; with a bad one, no speed update and four
/// absent slots.
pub open spec fn xv11_decode(b: Seq<u8>) -> (Option<u16>, Seq<Option<Sample>>) {
    if xv11_checksum_ok(b) {
        (Some(xv11_speed_raw(b)), xv11_packet_samples(b))
    } else {
        (None, seq![None, None, None, None])
    }
}

/// Decodes a framed 22-byte packet.
pub fn decode_packet(buffer: &[u8]) -> (r: (Option<u16>, Vec<Option<Sample>>))
    requires
        buffer@.len() == 22,
        0xA0 <= buffer@[1] <= 0xF9,
    ensures
        r.0 == xv11_decode(buffer@).0,
        r.1@ == xv11_decode(buffer@).1,
{
    let computed_chk = checksum(vstd::slice::slice_subrange(buffer, 0, 20));
    let read_chk = u16le_from_slice(vstd::slice::slice_subrange(buffer, 20, 22));
    if computed_chk == read_chk {
        let index = buffer[1] - 0xA0;
        let speed = u16le_from_slice(vstd::slice::slice_subrange(buffer, 2, 4));
        let base_angle: usize = index as usize * 4;
        let mut samples: Vec<Option<Sample>> = Vec::new();
        let mut i: usize = 0;
        while i < 4
            invariant
                i <= 4,
                buffer@.len() == 22,
                0xA0 <= buffer@[1] <= 0xF9,
                base_angle == (buffer@[1] - 0xA0) * 4,
                samples@.len() == i,
                forall|j: int| 0 <= j < i ==> samples@[j] == xv11_packet_samples(buffer@)[j],
            decreases 4 - i,
        {
            let data = vstd::slice::slice_subrange(buffer, 4 * (i + 1), 4 * (i + 2));
            let s = decode_data(base_angle + i, data);
            samples.push(s);
            i = i + 1;
        }
        proof {
            assert(samples@ =~= xv11_packet_samples(buffer@));
        }
        (Some(speed), samples)
    } else {
        let mut samples: Vec<Option<Sample>> = Vec::new();
        samples.push(None);
        samples.push(None);
        samples.push(None);
        samples.push(None);
        proof {
            assert(samples@ =~= seq![
                None::<Sample>,
                None::<Sample>,
                None::<Sample>,
                None::<Sample>,
            ]);
        }
        (None, samples)
    }
}

/// Synchronization state of the XV11 packet framing.
pub enum InitLevel {
    /// Discarding bytes until the 0xFA start byte.
    Idle,
    /// The start byte was seen; the next byte must be a valid index.
    Started,
    /// Start byte and index accepted; accumulating the remaining
    /// bytes of the 22-byte packet.
    Reading,
}

/// Byte-at-a-time framing state for the XV11 protocol.
pub struct XV11Transport {
    pub init_level: InitLevel,
    /// Bytes of the packet currently being received.
    pub buffer: Vec<u8>,
}

/// Abstract state of an `XV11Transport`, as the contracts speak of it.
#[verifier::ext_equal]
pub struct Xv11Model {
    pub init_level: InitLevel,
    pub buffer: Seq<u8>,
}

impl View for XV11Transport {
    type V = Xv11Model;

    open spec fn view(&self) -> Xv11Model {
        Xv11Model { init_level: self.init_level, buffer: self.buffer@ }
    }
}

impl Xv11Model {
    /// Relation between the synchronization state and the buffer that
    /// `put` preserves.
    pub open spec fn wf(&self) -> bool {
        match self.init_level {
            InitLevel::Idle => self.buffer.len() == 0,
            InitLevel::Started => self.buffer == seq![0xFAu8],
            InitLevel::Reading => {
                &&& 2 <= self.buffer.len() < 22
                &&& self.buffer[0] == 0xFA
                &&& 0xA0 <= self.buffer[1] <= 0xF9
            },
        }
    }

    /// State of a decoder that has not yet consumed any byte.
    pub open spec fn init() -> Xv11Model {
        Xv11Model { init_level: InitLevel::Idle, buffer: Seq::empty() }
    }
}

/// One step of the XV11 framing state machine: the decoder in state
/// `m` consumes the byte `c`, possibly completing a packet. An index
/// byte outside `0xA0..=0xF9` sends the machine back to `Idle`.
pub open spec fn spec_put(m: Xv11Model, c: u8) -> (
    Xv11Model,
    Option<(Option<u16>, Seq<Option<Sample>>)>,
) {
    match m.init_level {
        InitLevel::Idle => {
            if c == 0xFA {
                (Xv11Model { init_level: InitLevel::Started, buffer: seq![0xFAu8] }, None)
            } else {
                (m, None)
            }
        },
        InitLevel::Started => {
            if 0xA0 <= c <= 0xF9 {
                (
                    Xv11Model { init_level: InitLevel::Reading, buffer: m.buffer.push(c) },
                    None,
                )
            } else {
                (Xv11Model { init_level: InitLevel::Idle, buffer: Seq::empty() }, None)
            }
        },
        InitLevel::Reading => {
            let b = m.buffer.push(c);
            if b.len() == 22 {
                (
                    Xv11Model { init_level: InitLevel::Idle, buffer: Seq::empty() },
                    Some(xv11_decode(b)),
                )
            } else {
                (Xv11Model { init_level: InitLevel::Reading, buffer: b }, None)
            }
        },
    }
}

/// The decoder in state `m` consumes every byte of `bytes` in order;
/// the result is the final state and the decoded packets, in order.
pub open spec fn spec_run(m: Xv11Model, bytes: Seq<u8>) -> (
    Xv11Model,
    Seq<(Option<u16>, Seq<Option<Sample>>)>,
)
    decreases bytes.len(),
{
    if bytes.len() == 0 {
        (m, Seq::empty())
    } else {
        let (m1, o) = spec_put(m, bytes[0]);
        let (m2, rest) = spec_run(m1, bytes.drop_first());
        (m2, opt_seq(o) + rest)
    }
}

/// An emitted packet as a one-element sequence, nothing as an empty
/// one.
pub open spec fn opt_seq(o: Option<(Option<u16>, Seq<Option<Sample>>)>) -> Seq<
    (Option<u16>, Seq<Option<Sample>>),
> {
    match o {
        Some(s) => seq![s],
        None => Seq::empty(),
    }
}

/// The decoded output of `put`, lifted to the model level.
pub open spec fn packet_view(r: Option<(Option<u16>, Vec<Option<Sample>>)>) -> Option<
    (Option<u16>, Seq<Option<Sample>>),
> {
    match r {
        Some(p) => Some((p.0, p.1@)),
        None => None,
    }
}

impl XV11Transport {
    pub fn new() -> (t: XV11Transport)
        ensures
            t@ == Xv11Model::init(),
            t@.wf(),
    {
        let t = XV11Transport { init_level: InitLevel::Idle, buffer: Vec::new() };
        proof {
            assert(t@ =~= Xv11Model::init());
        }
        t
    }

    /// Feeds one byte to the framing state machine. Exactly when the
    /// byte completes a 22-byte packet, the decoded packet is
    /// returned (its checksum may still have failed; see
    /// `xv11_decode`).
    pub fn put(&mut self, c: u8) -> (r: Option<(Option<u16>, Vec<Option<Sample>>)>)
        requires
            old(self)@.wf(),
        ensures
            final(self)@.wf(),
            final(self)@ == spec_put(old(self)@, c).0,
            packet_view(r) == spec_put(old(self)@, c).1,
    {
        match self.init_level {
            InitLevel::Idle => {
                if c == 0xFA {
                    self.buffer.push(c);
                    self.init_level = InitLevel::Started;
                    proof {
                        assert(self@ =~= spec_put(old(self)@, c).0);
                    }
                } else {
                    proof {
                        assert(self@ =~= spec_put(old(self)@, c).0);
                    }
                }
                None
            },
            InitLevel::Started => {
                if 0xA0 <= c && c <= 0xF9 {
                    self.buffer.push(c);
                    self.init_level = InitLevel::Reading;
                } else {
                    self.buffer.clear();
                    self.init_level = InitLevel::Idle;
                }
                proof {
                    assert(self@ =~= spec_put(old(self)@, c).0);
                }
                None
            },
            InitLevel::Reading => {
                self.buffer.push(c);
                if self.buffer.len() == 22 {
                    let r = decode_packet(self.buffer.as_slice());
                    self.buffer.clear();
                    self.init_level = InitLevel::Idle;
                    proof {
                        assert(self@ =~= spec_put(old(self)@, c).0);
                    }
                    Some(r)
                } else {
                    proof {
                        assert(self@ =~= spec_put(old(self)@, c).0);
                    }
                    None
                }
            },
        }
    }
}

/// The decoded outputs of `push_bytes`, lifted to the model level.
pub open spec fn packets_view(r: Seq<(Option<u16>, Vec<Option<Sample>>)>) -> Seq<
    (Option<u16>, Seq<Option<Sample>>),
> {
    Seq::new(r.len(), |i: int| (r[i].0, r[i].1@))
}

impl XV11Transport {
    /// Feeds a whole chunk of bytes, returning every packet decoded
    /// along the way, in order. Equivalent to calling `put` once per
    /// byte (see `lemma_run_append`).
    pub fn push_bytes(&mut self, bytes: &[u8]) -> (r: Vec<(Option<u16>, Vec<Option<Sample>>)>)
        requires
            old(self)@.wf(),
        ensures
            final(self)@.wf(),
            final(self)@ == spec_run(old(self)@, bytes@).0,
            packets_view(r@) == spec_run(old(self)@, bytes@).1,
    {
        let ghost m0 = self@;
        let mut r: Vec<(Option<u16>, Vec<Option<Sample>>)> = Vec::new();
        let mut i: usize = 0;
        while i < bytes.len()
            invariant
                i <= bytes@.len(),
                self@.wf(),
                self@ == spec_run(m0, bytes@.take(i as int)).0,
                packets_view(r@) == spec_run(m0, bytes@.take(i as int)).1,
            decreases bytes@.len() - i,
        {
            let c = bytes[i];
            let out = self.put(c);
            proof {
                lemma_run_snoc(m0, bytes@.take(i as int), c);
                assert(bytes@.take(i + 1) =~= bytes@.take(i as int).push(c));
            }
            if let Some(pkt) = out {
                r.push(pkt);
            }
            proof {
                assert(packets_view(r@) =~= spec_run(m0, bytes@.take(i + 1)).1);
            }
            i = i + 1;
        }
        proof {
            assert(bytes@.take(bytes@.len() as int) =~= bytes@);
        }
        r
    }
}

/// Smallest and largest angle among the present slots of a sequence,
/// or nothing when every slot is absent.
pub open spec fn spec_min_max(s: Seq<Option<Sample>>) -> Option<(int, int)>
    decreases s.len(),
{
    if s.len() == 0 {
        None
    } else {
        let rest = spec_min_max(s.drop_last());
        match s.last() {
            Some(smp) => match rest {
                Some(p) => Some(
                    (
                        if p.0 <= smp.angle as int {
                            p.0
                        } else {
                            smp.angle as int
                        },
                        if p.1 >= smp.angle as int {
                            p.1
                        } else {
                            smp.angle as int
                        },
                    ),
                ),
                None => Some((smp.angle as int, smp.angle as int)),
            },
            None => rest,
        }
    }
}

/// The result of `get_min_max`, lifted.
pub open spec fn min_max_view(r: Option<(i32, i32)>) -> Option<(int, int)> {
    match r {
        Some(p) => Some((p.0 as int, p.1 as int)),
        None => None,
    }
}

/// Smallest and largest angle among the present slots.
pub fn get_min_max(samples: &Vec<Option<Sample>>) -> (r: Option<(i32, i32)>)
    ensures
        min_max_view(r) == spec_min_max(samples@),
{
    let mut mimax: Option<(i32, i32)> = None;
    let mut i: usize = 0;
    while i < samples.len()
        invariant
            i <= samples@.len(),
            min_max_view(mimax) == spec_min_max(samples@.take(i as int)),
        decreases samples@.len() - i,
    {
        if let Some(sample) = samples[i] {
            mimax = match mimax {
                Some((mn, mx)) => Some(
                    (
                        if mn <= sample.angle {
                            mn
                        } else {
                            sample.angle
                        },
                        if mx >= sample.angle {
                            mx
                        } else {
                            sample.angle
                        },
                    ),
                ),
                None => Some((sample.angle, sample.angle)),
            };
        }
        proof {
            assert(samples@.take(i + 1).drop_last() =~= samples@.take(i as int));
            assert(samples@.take(i + 1).last() == samples@[i as int]);
        }
        i = i + 1;
    }
    proof {
        assert(samples@.take(samples@.len() as int) =~= samples@);
    }
    mimax
}

/// One aggregation step of the XV11 acquisition: a packet whose
/// smallest present angle falls below the running maximum wraps past
/// the rotation boundary, sealing the in-progress turn; the packet's
/// four slots then open the next turn. Otherwise (also when the
/// packet has no present slot) the slots are appended. The result is
/// the new in-progress turn, the new running angle maximum, and the
/// sealed turn, if any.
pub open spec fn xv11_agg_step(
    turn: Seq<Option<Sample>>,
    angle_max: int,
    samples: Seq<Option<Sample>>,
) -> (Seq<Option<Sample>>, int, Option<Seq<Option<Sample>>>) {
    match spec_min_max(samples) {
        Some(p) => {
            if p.0 < angle_max {
                (samples, p.1, Some(turn))
            } else {
                (
                    turn + samples,
                    if angle_max >= p.1 {
                        angle_max
                    } else {
                        p.1
                    },
                    None,
                )
            }
        },
        None => (turn + samples, angle_max, None),
    }
}

/// One step of the whole XV11 acquisition: framing, packet decode,
/// speed update and turn aggregation. Yields the new engine state
/// (transport model, in-progress turn, running angle maximum, raw
/// speed) and the sealed turn, if the byte completed one.
pub open spec fn engine_step(
    transport: Xv11Model,
    turn: Seq<Option<Sample>>,
    angle_max: int,
    speed_raw: u16,
    c: u8,
) -> (Xv11Model, Seq<Option<Sample>>, int, u16, Option<Seq<Option<Sample>>>) {
    let (m2, emitted) = spec_put(transport, c);
    match emitted {
        None => (m2, turn, angle_max, speed_raw, None),
        Some(pkt) => {
            let sp2 = match pkt.0 {
                Some(s) => s,
                None => speed_raw,
            };
            let (t2, a2, sealed) = xv11_agg_step(turn, angle_max, pkt.1);
            (m2, t2, a2, sp2, sealed)
        },
    }
}

/// The XV11 acquisition engine: owns the framing state, the
/// in-progress turn and the latest rotational speed. The caller
/// feeds it the raw bytes read from the transport and publishes
/// whatever turns it seals.
pub struct Xv11Engine {
    pub transport: XV11Transport,
    /// Slots of the rotation being accumulated.
    pub turn: Vec<Option<Sample>>,
    /// Largest angle (millidegrees) seen in the current rotation.
    pub angle_max: i32,
    /// Raw speed of the most recent checksum-valid packet.
    pub speed_raw: u16,
}

impl Xv11Engine {
    pub fn new() -> (e: Xv11Engine)
        ensures
            e.transport@ == Xv11Model::init(),
            e.transport@.wf(),
            e.turn@.len() == 0,
            e.angle_max == 0,
            e.speed_raw == 0,
    {
        Xv11Engine { transport: XV11Transport::new(), turn: Vec::new(), angle_max: 0, speed_raw: 0 }
    }

    /// Feeds one byte read from the transport; returns the sealed
    /// turn when the byte completes a packet that wraps the rotation.
    pub fn put(&mut self, c: u8) -> (sealed: Option<Vec<Option<Sample>>>)
        requires
            old(self).transport@.wf(),
        ensures
            final(self).transport@.wf(),
            ({
                let (m2, t2, a2, sp2, sl) = engine_step(
                    old(self).transport@,
                    old(self).turn@,
                    old(self).angle_max as int,
                    old(self).speed_raw,
                    c,
                );
                &&& final(self).transport@ == m2
                &&& final(self).turn@ == t2
                &&& final(self).angle_max as int == a2
                &&& final(self).speed_raw == sp2
                &&& match sealed {
                    Some(v) => sl == Some(v@),
                    None => sl is None,
                }
            }),
    {
        let out = self.transport.put(c);
        match out {
            None => None,
            Some((speed, mut samples)) => {
                if let Some(sp) = speed {
                    self.speed_raw = sp;
                }
                let mut sealed: Option<Vec<Option<Sample>>> = None;
                if let Some((a_min, a_max)) = get_min_max(&samples) {
                    if a_min < self.angle_max {
                        self.angle_max = a_max;
                        let mut t: Vec<Option<Sample>> = Vec::new();
                        core::mem::swap(&mut t, &mut self.turn);
                        sealed = Some(t);
                    }
                    if self.angle_max < a_max {
                        self.angle_max = a_max;
                    }
                }
                self.turn.append(&mut samples);
                proof {
                    let (m2, t2, a2, sp2, sl) = engine_step(
                        old(self).transport@,
                        old(self).turn@,
                        old(self).angle_max as int,
                        old(self).speed_raw,
                        c,
                    );
                    assert(self.turn@ =~= t2);
                }
                sealed
            },
        }
    }
}

/// Consuming one more byte after a run is one further step of the
/// machine, and appends whatever that step decodes.
pub proof fn lemma_run_snoc(m: Xv11Model, s: Seq<u8>, c: u8)
    ensures
        spec_run(m, s.push(c)).0 == spec_put(spec_run(m, s).0, c).0,
        spec_run(m, s.push(c)).1 == spec_run(m, s).1 + opt_seq(spec_put(spec_run(m, s).0, c).1),
{
    assert(s.push(c) =~= s + seq![c]);
    lemma_run_append(m, s, seq![c]);
    let m1 = spec_run(m, s).0;
    let (m2, o) = spec_put(m1, c);
    assert(seq![c][0] == c);
    assert(seq![c].drop_first() =~= Seq::<u8>::empty());
    assert(spec_run(m2, Seq::<u8>::empty()).0 == m2);
    assert(spec_run(m2, Seq::<u8>::empty()).1 =~= Seq::<
        (Option<u16>, Seq<Option<Sample>>),
    >::empty());
    assert(spec_run(m1, seq![c]).0 == m2);
    assert(spec_run(m1, seq![c]).1 =~= opt_seq(o));
}

/// Decoding is independent of read chunking, as for the LD06
/// protocol: a concatenation decodes as the two halves in sequence.
pub proof fn lemma_run_append(m: Xv11Model, s1: Seq<u8>, s2: Seq<u8>)
    ensures
        spec_run(m, s1 + s2).0 == spec_run(spec_run(m, s1).0, s2).0,
        spec_run(m, s1 + s2).1 == spec_run(m, s1).1 + spec_run(spec_run(m, s1).0, s2).1,
    decreases s1.len(),
{
    if s1.len() == 0 {
        assert(s1 + s2 =~= s2);
        assert(spec_run(m, s1).1 + spec_run(spec_run(m, s1).0, s2).1 =~= spec_run(m, s2).1);
    } else {
        let (m1, o) = spec_put(m, s1[0]);
        assert((s1 + s2).drop_first() =~= s1.drop_first() + s2);
        lemma_run_append(m1, s1.drop_first(), s2);
        assert(opt_seq(o) + (spec_run(m1, s1.drop_first()).1 + spec_run(
            spec_run(m1, s1.drop_first()).0,
            s2,
        ).1) =~= (opt_seq(o) + spec_run(m1, s1.drop_first()).1) + spec_run(
            spec_run(m1, s1.drop_first()).0,
            s2,
        ).1);
    }
}

} // verus!
