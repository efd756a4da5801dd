//! UST05LN protocol: newline-delimited ASCII lines.
//!
//! A measurement line has the shape `#GT00:` followed by a 12-digit
//! hexadecimal timestamp, `:`, a 6-digit decimal sequence number,
//! `:`, and 4332 hexadecimal characters, of which the first 540
//! groups of 8 each hold a 4-digit distance and a 4-digit quality.
//! Hexadecimal digits are the upper-case ones. Lines that do not
//! match anywhere are ignored; the leftmost match of a line counts.
//!
//! The same transport carries a command handshake: ranging is
//! stopped with `#ST5297\n` and started with `#GT15466\n`, each
//! acknowledged by `#ST00A845\n`.

use vstd::prelude::*;

use crate::lidar::Sample;

verus! {

/// Upper-case hexadecimal digit.
pub open spec fn is_hex(b: u8) -> bool {
    (0x30 <= b <= 0x39) || (0x41 <= b <= 0x46)
}

/// Decimal digit.
pub open spec fn is_digit(b: u8) -> bool {
    0x30 <= b <= 0x39
}

/// Value of one hexadecimal digit.
pub open spec fn hex_val(b: u8) -> int {
    if 0x30 <= b <= 0x39 {
        b - 0x30
    } else {
        b - 0x37
    }
}

/// Value of a big-endian string of hexadecimal digits.
pub open spec fn hex_num(s: Seq<u8>) -> int
    decreases s.len(),
{
    if s.len() == 0 {
        0
    } else {
        16 * hex_num(s.drop_last()) + hex_val(s.last())
    }
}

/// Largest value a string of `k` hexadecimal digits can denote.
pub open spec fn hex_cap(k: int) -> int
    decreases k,
{
    if k <= 0 {
        0
    } else {
        16 * hex_cap(k - 1) + 15
    }
}

proof fn lemma_hex_cap_mono(a: int, b: int)
    requires
        a <= b,
    ensures
        hex_cap(a) <= hex_cap(b),
    decreases b - a,
{
    if a < b {
        lemma_hex_cap_mono(a, b - 1);
        if b > 0 {
            assert(hex_cap(b) == 16 * hex_cap(b - 1) + 15);
            if b - 1 > 0 {
                lemma_hex_cap_nonneg(b - 1);
            }
        }
    }
}

proof fn lemma_hex_cap_nonneg(k: int)
    ensures
        hex_cap(k) >= 0,
    decreases k,
{
    if k > 0 {
        lemma_hex_cap_nonneg(k - 1);
    }
}

/// A measurement line matches at position `p` of `s`.
pub open spec fn scan_match_at(s: Seq<u8>, p: int) -> bool {
    &&& 0 <= p
    &&& p + 4358 <= s.len()
    &&& s[p] == 0x23
    &&& s[p + 1] == 0x47
    &&& s[p + 2] == 0x54
    &&& s[p + 3] == 0x30
    &&& s[p + 4] == 0x30
    &&& s[p + 5] == 0x3A
    &&& (forall|i: int| p + 6 <= i < p + 18 ==> is_hex(#[trigger] s[i]))
    &&& s[p + 18] == 0x3A
    &&& (forall|i: int| p + 19 <= i < p + 25 ==> is_digit(#[trigger] s[i]))
    &&& s[p + 25] == 0x3A
    &&& (forall|i: int| p + 26 <= i < p + 4358 ==> is_hex(#[trigger] s[i]))
}

/// Position of the leftmost match at or after `p`, or -1 when there
/// is none.
pub open spec fn first_match_from(s: Seq<u8>, p: int) -> int
    decreases s.len() - p,
{
    if p + 4358 > s.len() {
        -1
    } else if scan_match_at(s, p) {
        p
    } else {
        first_match_from(s, p + 1)
    }
}

/// Position of the leftmost match of a line, or -1 when there is
/// none.
pub open spec fn first_match(s: Seq<u8>) -> int {
    first_match_from(s, 0)
}

/// Timestamp field of the match at `p`.
pub open spec fn ust_timestamp(s: Seq<u8>, p: int) -> int {
    hex_num(s.subrange(p + 6, p + 18))
}

/// Decoded slot `i` of the match at `p`: present only for a nonzero
/// quality and a distance below 6000 mm. Slot `i` sits at
/// `i * 0.5 - 135` degrees, held in millidegrees.
pub open spec fn ust_sample(s: Seq<u8>, p: int, i: int) -> Option<Sample> {
    let g = p + 26 + 8 * i;
    let d = hex_num(s.subrange(g, g + 4));
    let q = hex_num(s.subrange(g + 4, g + 8));
    if q > 0 && d < 6000 {
        Some(
            Sample {
                angle: (500 * i - 135000) as i32,
                distance: d as u16,
                quality: q as u16,
            },
        )
    } else {
        None
    }
}

/// The 540 decoded slots of the match at `p`.
pub open spec fn ust_samples(s: Seq<u8>, p: int) -> Seq<Option<Sample>> {
    Seq::new(540, |i: int| ust_sample(s, p, i))
}

fn is_hex_byte(b: u8) -> (r: bool)
    ensures
        r == is_hex(b),
{
    (0x30 <= b && b <= 0x39) || (0x41 <= b && b <= 0x46)
}

fn is_digit_byte(b: u8) -> (r: bool)
    ensures
        r == is_digit(b),
{
    0x30 <= b && b <= 0x39
}

fn hex_value(b: u8) -> (r: u8)
    requires
        is_hex(b),
    ensures
        r as int == hex_val(b),
{
    if b <= 0x39 {
        b - 0x30
    } else {
        b - 0x37
    }
}

/// Parses `len` hexadecimal digits starting at `start`.
#[verifier::loop_isolation(false)]
fn parse_hex(line: &[u8], start: usize, len: usize) -> (r: u64)
    requires
        line@.len() <= usize::MAX,
        start + len <= line@.len(),
        len <= 12,
        forall|i: int| start <= i < start + len ==> is_hex(#[trigger] line@[i]),
    ensures
        r as int == hex_num(line@.subrange(start as int, start as int + len)),
        r as int <= hex_cap(len as int),
{
    let mut t: u64 = 0;
    let mut k: usize = 0;
    while k < len
        invariant
            k <= len <= 12,
            start + len <= line@.len(),
            forall|i: int| start <= i < start + len ==> is_hex(#[trigger] line@[i]),
            t as int == hex_num(line@.subrange(start as int, start as int + k)),
            t as int <= hex_cap(k as int),
        decreases len - k,
    {
        proof {
            lemma_hex_cap_mono(k as int, 11);
            assert(hex_cap(0) == 0);
            assert(hex_cap(1) == 15);
            assert(hex_cap(2) == 255);
            assert(hex_cap(3) == 4095);
            assert(hex_cap(4) == 65535);
            assert(hex_cap(5) == 1048575);
            assert(hex_cap(6) == 16777215);
            assert(hex_cap(7) == 268435455);
            assert(hex_cap(8) == 4294967295);
            assert(hex_cap(9) == 68719476735);
            assert(hex_cap(10) == 1099511627775);
            assert(hex_cap(11) == 17592186044415);
        }
        let v = hex_value(line[start + k]);
        t = t * 16 + v as u64;
        proof {
            assert(line@.subrange(start as int, start as int + k + 1).drop_last()
                =~= line@.subrange(start as int, start as int + k));
            assert(line@.subrange(start as int, start as int + k + 1).last() == line@[start
                + k]);
        }
        k = k + 1;
    }
    t
}

/// Checks for a measurement line match at position `p`.
#[verifier::loop_isolation(false)]
fn match_at(line: &[u8], p: usize) -> (r: bool)
    requires
        line@.len() <= usize::MAX,
        p + 4358 <= line@.len(),
    ensures
        r == scan_match_at(line@, p as int),
{
    if line[p] != 0x23 || line[p + 1] != 0x47 || line[p + 2] != 0x54 || line[p + 3] != 0x30
        || line[p + 4] != 0x30 || line[p + 5] != 0x3A {
        return false;
    }
    let mut i: usize = p + 6;
    while i < p + 18
        invariant
            p + 4358 <= line@.len(),
            p + 6 <= i <= p + 18,
            forall|j: int| p + 6 <= j < i ==> is_hex(#[trigger] line@[j]),
        decreases p + 18 - i,
    {
        if !is_hex_byte(line[i]) {
            return false;
        }
        i = i + 1;
    }
    if line[p + 18] != 0x3A {
        return false;
    }
    let mut i: usize = p + 19;
    while i < p + 25
        invariant
            p + 4358 <= line@.len(),
            p + 19 <= i <= p + 25,
            forall|j: int| p + 19 <= j < i ==> is_digit(#[trigger] line@[j]),
        decreases p + 25 - i,
    {
        if !is_digit_byte(line[i]) {
            return false;
        }
        i = i + 1;
    }
    if line[p + 25] != 0x3A {
        return false;
    }
    let mut i: usize = p + 26;
    while i < p + 4358
        invariant
            p + 4358 <= line@.len(),
            p + 26 <= i <= p + 4358,
            forall|j: int| p + 26 <= j < i ==> is_hex(#[trigger] line@[j]),
        decreases p + 4358 - i,
    {
        if !is_hex_byte(line[i]) {
            return false;
        }
        i = i + 1;
    }
    true
}

proof fn lemma_first_match_found(s: Seq<u8>, k: int, p: int)
    requires
        0 <= k <= p,
        scan_match_at(s, p),
        forall|q: int| k <= q < p ==> !scan_match_at(s, q),
    ensures
        first_match_from(s, k) == p,
    decreases p - k,
{
    if k < p {
        lemma_first_match_found(s, k + 1, p);
    }
}

proof fn lemma_no_match(s: Seq<u8>, k: int)
    requires
        0 <= k,
        forall|q: int| k <= q ==> !scan_match_at(s, q),
    ensures
        first_match_from(s, k) == -1,
    decreases s.len() - k,
{
    if k + 4358 <= s.len() {
        lemma_no_match(s, k + 1);
    }
}

/// Parses a line of the transport. Succeeds exactly when the
/// measurement pattern matches somewhere in the line; the fields
/// then come from its leftmost match: the timestamp, and the 540
/// sample slots in order. Anything else is ignored (`None`).
pub fn parse_scan(line: &[u8]) -> (r: Option<(u64, Vec<Option<Sample>>)>)
    ensures
        (r is Some) == (first_match(line@) >= 0),
        r is Some ==> ({
            let p = first_match(line@);
            &&& r.unwrap().0 as int == ust_timestamp(line@, p)
            &&& r.unwrap().1@ == ust_samples(line@, p)
        }),
{
    let n = line.len();
    if n < 4358 {
        proof {
            lemma_no_match(line@, 0);
        }
        return None;
    }
    let max_p = n - 4358;
    let mut p: usize = 0;
    while p <= max_p
        invariant
            n == line@.len(),
            n >= 4358,
            max_p == n - 4358,
            p <= max_p + 1,
            forall|q: int| 0 <= q < p ==> !scan_match_at(line@, q),
        decreases max_p + 1 - p,
    {
        if match_at(line, p) {
            proof {
                lemma_first_match_found(line@, 0, p as int);
            }
            let timestamp = parse_hex(line, p + 6, 12);
            let mut samples: Vec<Option<Sample>> = Vec::new();
            let mut i: usize = 0;
            while i < 540
                invariant
                    scan_match_at(line@, p as int),
                    n == line@.len(),
                    p + 4358 <= n,
                    i <= 540,
                    samples@.len() == i,
                    forall|j: int| 0 <= j < i ==> samples@[j] == ust_sample(line@, p as int, j),
                decreases 540 - i,
            {
                proof {
                    assert(hex_cap(4) == 65535) by {
                        assert(hex_cap(0) == 0);
                        assert(hex_cap(1) == 15);
                        assert(hex_cap(2) == 255);
                        assert(hex_cap(3) == 4095);
                    }
                }
                let g = p + 26 + 8 * i;
                let distance = parse_hex(line, g, 4) as u16;
                let quality = parse_hex(line, g + 4, 4) as u16;
                let angle: i32 = 500 * (i as i32) - 135000;
                let s = if quality > 0 && distance < 6000 {
                    Some(Sample { angle, distance, quality })
                } else {
                    None
                };
                samples.push(s);
                i = i + 1;
            }
            proof {
                assert(samples@ =~= ust_samples(line@, p as int));
            }
            return Some((timestamp, samples));
        }
        p = p + 1;
    }
    proof {
        assert(forall|q: int| 0 <= q ==> !scan_match_at(line@, q));
        lemma_no_match(line@, 0);
    }
    None
}

/// Bytes of the ranging-stop command line.
pub open spec fn stop_command_spec() -> Seq<u8> {
    seq![0x23u8, 0x53, 0x54, 0x35, 0x32, 0x39, 0x37, 0x0A]
}

/// Bytes of the ranging-start command line.
pub open spec fn start_command_spec() -> Seq<u8> {
    seq![0x23u8, 0x47, 0x54, 0x31, 0x35, 0x34, 0x36, 0x36, 0x0A]
}

/// Bytes of the acknowledgement line the sensor answers with.
pub open spec fn ack_spec() -> Seq<u8> {
    seq![0x23u8, 0x53, 0x54, 0x30, 0x30, 0x41, 0x38, 0x34, 0x35, 0x0A]
}

/// The command that stops ranging: `#ST5297\n`.
pub fn stop_command() -> (r: Vec<u8>)
    ensures
        r@ == stop_command_spec(),
{
    let mut v: Vec<u8> = Vec::new();
    v.push(0x23);
    v.push(0x53);
    v.push(0x54);
    v.push(0x35);
    v.push(0x32);
    v.push(0x39);
    v.push(0x37);
    v.push(0x0A);
    proof {
        assert(v@ =~= stop_command_spec());
    }
    v
}

/// The command that starts ranging: `#GT15466\n`.
pub fn start_command() -> (r: Vec<u8>)
    ensures
        r@ == start_command_spec(),
{
    let mut v: Vec<u8> = Vec::new();
    v.push(0x23);
    v.push(0x47);
    v.push(0x54);
    v.push(0x31);
    v.push(0x35);
    v.push(0x34);
    v.push(0x36);
    v.push(0x36);
    v.push(0x0A);
    proof {
        assert(v@ =~= start_command_spec());
    }
    v
}

/// Whether a reply line is the expected acknowledgement
/// `#ST00A845\n`.
pub fn is_ack(line: &[u8]) -> (r: bool)
    ensures
        r == (line@ == ack_spec()),
{
    let expected = [0x23u8, 0x53, 0x54, 0x30, 0x30, 0x41, 0x38, 0x34, 0x35, 0x0A];
    if line.len() != 10 {
        return false;
    }
    let mut i: usize = 0;
    while i < 10
        invariant
            line@.len() == 10,
            i <= 10,
            expected@ =~= ack_spec(),
            forall|j: int| 0 <= j < i ==> line@[j] == ack_spec()[j],
        decreases 10 - i,
    {
        if line[i] != expected[i] {
            return false;
        }
        i = i + 1;
    }
    proof {
        assert(line@ =~= ack_spec());
    }
    true
}

/// Phase of the ranging handshake run before measurement lines are
/// read: first stop ranging (retried until acknowledged), then start
/// it. An unexpected reply to the start command is tolerated.
#[derive(Copy, Clone, PartialEq, Eq, Structural, Debug)]
pub enum HandshakePhase {
    /// The stop command was (or is about to be) sent.
    StopPending,
    /// Stop acknowledged; the start command was (or is about to be)
    /// sent.
    StartPending,
    /// The handshake is over; measurement lines follow.
    Done,
}

/// The command line to send in a handshake phase, if any.
pub fn handshake_command(phase: HandshakePhase) -> (r: Option<Vec<u8>>)
    ensures
        phase is StopPending ==> r is Some && r.unwrap()@ == stop_command_spec(),
        phase is StartPending ==> r is Some && r.unwrap()@ == start_command_spec(),
        phase is Done ==> r is None,
{
    match phase {
        HandshakePhase::StopPending => Some(stop_command()),
        HandshakePhase::StartPending => Some(start_command()),
        HandshakePhase::Done => None,
    }
}

/// The next handshake phase after the sensor's reply line: the stop
/// command is repeated until acknowledged; the start command is sent
/// once, any reply (expected or not) ending the handshake.
pub fn handshake_step(phase: HandshakePhase, reply: &[u8]) -> (next: HandshakePhase)
    ensures
        phase is StopPending && reply@ == ack_spec() ==> next is StartPending,
        phase is StopPending && reply@ != ack_spec() ==> next is StopPending,
        phase is StartPending ==> next is Done,
        phase is Done ==> next is Done,
{
    match phase {
        HandshakePhase::StopPending => {
            if is_ack(reply) {
                HandshakePhase::StartPending
            } else {
                HandshakePhase::StopPending
            }
        },
        HandshakePhase::StartPending => HandshakePhase::Done,
        HandshakePhase::Done => HandshakePhase::Done,
    }
}

} // verus!
