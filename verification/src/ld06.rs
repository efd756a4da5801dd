//! LD06 protocol: binary, length-prefixed frames protected by a CRC8.
//!
//! Wire format of one frame:
//! `[0x54][len][speed:u16le][start_angle:u16le][N x (distance:u16le,
//! confidence:u8)][end_angle:u16le][timestamp:u16le][crc8]`, where `N`
//! is the low 5 bits of `len` and the CRC8 covers every byte before
//! the checksum byte itself.

use vstd::prelude::*;
use vstd::slice::slice_subrange;

use crate::lidar::Sample;
use crate::lidar::Turn;

verus! {

/// CRC8 lookup table of the LD06 protocol (polynomial-derived,
/// fixed by the wire format).
pub const CRC_TABLE: [u8; 256] = [
    0x00, 0x4d, 0x9a, 0xd7, 0x79, 0x34, 0xe3, 0xae, 0xf2, 0xbf, 0x68, 0x25, 0x8b, 0xc6, 0x11,
    0x5c, 0xa9, 0xe4, 0x33, 0x7e, 0xd0, 0x9d, 0x4a, 0x07, 0x5b, 0x16, 0xc1, 0x8c, 0x22, 0x6f,
    0xb8, 0xf5, 0x1f, 0x52, 0x85, 0xc8, 0x66, 0x2b, 0xfc, 0xb1, 0xed, 0xa0, 0x77, 0x3a, 0x94,
    0xd9, 0x0e, 0x43, 0xb6, 0xfb, 0x2c, 0x61, 0xcf, 0x82, 0x55, 0x18, 0x44, 0x09, 0xde, 0x93,
    0x3d, 0x70, 0xa7, 0xea, 0x3e, 0x73, 0xa4, 0xe9, 0x47, 0x0a, 0xdd, 0x90, 0xcc, 0x81, 0x56,
    0x1b, 0xb5, 0xf8, 0x2f, 0x62, 0x97, 0xda, 0x0d, 0x40, 0xee, 0xa3, 0x74, 0x39, 0x65, 0x28,
    0xff, 0xb2, 0x1c, 0x51, 0x86, 0xcb, 0x21, 0x6c, 0xbb, 0xf6, 0x58, 0x15, 0xc2, 0x8f, 0xd3,
    0x9e, 0x49, 0x04, 0xaa, 0xe7, 0x30, 0x7d, 0x88, 0xc5, 0x12, 0x5f, 0xf1, 0xbc, 0x6b, 0x26,
    0x7a, 0x37, 0xe0, 0xad, 0x03, 0x4e, 0x99, 0xd4, 0x7c, 0x31, 0xe6, 0xab, 0x05, 0x48, 0x9f,
    0xd2, 0x8e, 0xc3, 0x14, 0x59, 0xf7, 0xba, 0x6d, 0x20, 0xd5, 0x98, 0x4f, 0x02, 0xac, 0xe1,
    0x36, 0x7b, 0x27, 0x6a, 0xbd, 0xf0, 0x5e, 0x13, 0xc4, 0x89, 0x63, 0x2e, 0xf9, 0xb4, 0x1a,
    0x57, 0x80, 0xcd, 0x91, 0xdc, 0x0b, 0x46, 0xe8, 0xa5, 0x72, 0x3f, 0xca, 0x87, 0x50, 0x1d,
    0xb3, 0xfe, 0x29, 0x64, 0x38, 0x75, 0xa2, 0xef, 0x41, 0x0c, 0xdb, 0x96, 0x42, 0x0f, 0xd8,
    0x95, 0x3b, 0x76, 0xa1, 0xec, 0xb0, 0xfd, 0x2a, 0x67, 0xc9, 0x84, 0x53, 0x1e, 0xeb, 0xa6,
    0x71, 0x3c, 0x92, 0xdf, 0x08, 0x45, 0x19, 0x54, 0x83, 0xce, 0x60, 0x2d, 0xfa, 0xb7, 0x5d,
    0x10, 0xc7, 0x8a, 0x24, 0x69, 0xbe, 0xf3, 0xaf, 0xe2, 0x35, 0x78, 0xd6, 0x9b, 0x4c, 0x01,
    0xf4, 0xb9, 0x6e, 0x23, 0x8d, 0xc0, 0x17, 0x5a, 0x06, 0x4b, 0x9c, 0xd1, 0x7f, 0x32, 0xe5,
    0xa8,
];

/// Little-endian 16-bit value of two bytes, as a number.
pub open spec fn u16le(lo: u8, hi: u8) -> u16 {
    ((hi as int) * 256 + (lo as int)) as u16
}

/// One CRC8 step: table lookup keyed on the XOR of the running value
/// and the next byte.
pub open spec fn crc8_step(crc: u8, b: u8) -> u8 {
    CRC_TABLE@[(crc ^ b) as int]
}

/// CRC8 of a byte sequence: `crc8_step` folded over the bytes,
/// starting from 0.
pub open spec fn crc8(s: Seq<u8>) -> u8
    decreases s.len(),
{
    if s.len() == 0 {
        0u8
    } else {
        crc8_step(crc8(s.drop_last()), s.last())
    }
}

/// Reads the little-endian 16-bit value in the first two bytes.
pub fn u16le_from_slice(buffer: &[u8]) -> (r: u16)
    requires
        buffer@.len() >= 2,
    ensures
        r == u16le(buffer@[0], buffer@[1]),
{
    let lo = buffer[0];
    let hi = buffer[1];
    let r = (hi as u16) << 8 | (lo as u16);
    proof {
        assert(r == u16le(lo, hi)) by (bit_vector)
            requires
                r == (hi as u16) << 8 | (lo as u16),
                u16le(lo, hi) == ((hi as int) * 256 + (lo as int)) as u16,
        ;
    }
    r
}

/// Interpolated angle, in millidegrees, of point `i` among `n` points
/// spread from `start` to `end` (both in hundredths of a degree, as
/// read from the wire). When `end < start` the span wraps past 0 and
/// is widened by a full circle. A single point gets the start angle.
/// A result above 360 degrees is reduced by one circle.
pub open spec fn ld06_angle(start: u16, end: u16, n: int, i: int) -> int {
    let base = 10 * start;
    let off = if n <= 1 {
        0int
    } else if start <= end {
        (10 * i * (end - start)) / (n - 1)
    } else {
        let span = end + 36000 - start;
        if span >= 0 {
            (10 * i * span) / (n - 1)
        } else {
            -((10 * i * (start - 36000 - end)) / (n - 1))
        }
    };
    let a = base + off;
    if a > 360000 {
        a - 360000
    } else {
        a
    }
}

/// Raw rotational speed field of a frame (degrees per second on the
/// wire; dividing by 360 gives rotations per second).
pub open spec fn ld06_speed_raw(frame: Seq<u8>) -> u16 {
    u16le(frame[2], frame[3])
}

/// Start angle field of a frame, in hundredths of a degree.
pub open spec fn ld06_start_angle(frame: Seq<u8>) -> u16 {
    u16le(frame[4], frame[5])
}

/// End angle field of a frame of `n` points, in hundredths of a degree.
pub open spec fn ld06_end_angle(frame: Seq<u8>, n: int) -> u16 {
    u16le(frame[6 + 3 * n], frame[7 + 3 * n])
}

/// Decoded point `i` of a frame of `n` points.
pub open spec fn ld06_sample(frame: Seq<u8>, n: int, i: int) -> Sample {
    Sample {
        angle: ld06_angle(ld06_start_angle(frame), ld06_end_angle(frame, n), n, i) as i32,
        distance: u16le(frame[6 + 3 * i], frame[7 + 3 * i]),
        quality: frame[8 + 3 * i] as u16,
    }
}

/// All `n` decoded points of a frame.
pub open spec fn ld06_samples(frame: Seq<u8>, n: int) -> Seq<Sample> {
    Seq::new(n as nat, |i: int| ld06_sample(frame, n, i))
}

/// Receive state of the LD06 framing state machine.
pub enum RcvState {
    /// Discarding bytes until the 0x54 start marker.
    WaitStart,
    /// The start marker was seen; the next byte carries the point count.
    WaitLen,
    /// Accumulating the payload; the field counts the bytes still owed.
    GetPayload(usize),
    /// The payload is complete; the next byte is the checksum.
    WaitChk,
}

/// Byte-at-a-time framing and decoding state for the LD06 protocol.
pub struct LD06Transport {
    /// The last completed raw frame, checksum byte included.
    pub frame: Vec<u8>,
    /// Bytes of the frame currently being received.
    pub buffer: Vec<u8>,
    pub rcv_state: RcvState,
    /// Point count of the frame currently being received.
    pub nb_points: usize,
}

/// Abstract state of an `LD06Transport`, as the contracts speak of it.
#[verifier::ext_equal]
pub struct Ld06Model {
    pub rcv_state: RcvState,
    pub buffer: Seq<u8>,
    pub nb_points: int,
    pub frame: Seq<u8>,
}

impl View for LD06Transport {
    type V = Ld06Model;

    open spec fn view(&self) -> Ld06Model {
        Ld06Model {
            rcv_state: self.rcv_state,
            buffer: self.buffer@,
            nb_points: self.nb_points as int,
            frame: self.frame@,
        }
    }
}

impl Ld06Model {
    /// Relation between the receive state and the accumulation buffer
    /// that `put` preserves.
    pub open spec fn wf(&self) -> bool {
        &&& 0 <= self.nb_points <= 31
        &&& match self.rcv_state {
            RcvState::WaitStart => self.buffer.len() == 0,
            RcvState::WaitLen => self.buffer == seq![0x54u8],
            RcvState::GetPayload(n) => {
                &&& 1 <= n <= 3 * self.nb_points + 8
                &&& self.buffer.len() == 2 + (3 * self.nb_points + 8 - n)
            },
            RcvState::WaitChk => self.buffer.len() == 3 * self.nb_points + 10,
        }
    }

    /// State of a decoder that has not yet consumed any byte.
    pub open spec fn init() -> Ld06Model {
        Ld06Model {
            rcv_state: RcvState::WaitStart,
            buffer: Seq::empty(),
            nb_points: 0,
            frame: Seq::empty(),
        }
    }
}

/// One step of the LD06 framing state machine: the decoder in state
/// `m` consumes the byte `c`, moving to a new state and possibly
/// emitting a decoded frame as `(raw speed, samples)`.
pub open spec fn spec_put(m: Ld06Model, c: u8) -> (Ld06Model, Option<(u16, Seq<Sample>)>) {
    match m.rcv_state {
        RcvState::WaitStart => {
            if c == 0x54 {
                (Ld06Model { rcv_state: RcvState::WaitLen, buffer: seq![0x54u8], ..m }, None)
            } else {
                (Ld06Model { buffer: Seq::empty(), ..m }, None)
            }
        },
        RcvState::WaitLen => {
            let np = (c & 0x1F) as int;
            (
                Ld06Model {
                    rcv_state: RcvState::GetPayload((3 * np + 8) as usize),
                    buffer: m.buffer.push(c),
                    nb_points: np,
                    ..m
                },
                None,
            )
        },
        RcvState::GetPayload(n) => {
            let st = if n <= 1 {
                RcvState::WaitChk
            } else {
                RcvState::GetPayload((n - 1) as usize)
            };
            (Ld06Model { rcv_state: st, buffer: m.buffer.push(c), ..m }, None)
        },
        RcvState::WaitChk => {
            let f = m.buffer.push(c);
            let m2 = Ld06Model {
                rcv_state: RcvState::WaitStart,
                buffer: Seq::empty(),
                frame: f,
                ..m
            };
            if c == crc8(m.buffer) {
                (m2, Some((ld06_speed_raw(f), ld06_samples(f, m.nb_points))))
            } else {
                (m2, None)
            }
        },
    }
}

/// The decoder in state `m` consumes every byte of `bytes` in order;
/// the result is the final state and the decoded frames, in order.
pub open spec fn spec_run(m: Ld06Model, bytes: Seq<u8>) -> (
    Ld06Model,
    Seq<(u16, Seq<Sample>)>,
)
    decreases bytes.len(),
{
    if bytes.len() == 0 {
        (m, Seq::empty())
    } else {
        let (m1, o) = spec_put(m, bytes[0]);
        let (m2, rest) = spec_run(m1, bytes.drop_first());
        (m2, opt_seq(o) + rest)
    }
}

/// An emitted frame as a one-element sequence, nothing as an empty one.
pub open spec fn opt_seq(o: Option<(u16, Seq<Sample>)>) -> Seq<(u16, Seq<Sample>)> {
    match o {
        Some(s) => seq![s],
        None => Seq::empty(),
    }
}

/// The decoded output of `put`, lifted to the model level.
pub open spec fn scan_view(r: Option<(u16, Vec<Sample>)>) -> Option<(u16, Seq<Sample>)> {
    match r {
        Some(p) => Some((p.0, p.1@)),
        None => None,
    }
}

impl LD06Transport {
    pub fn new() -> (t: LD06Transport)
        ensures
            t@ == Ld06Model::init(),
            t@.wf(),
    {
        let t = LD06Transport {
            frame: Vec::new(),
            buffer: Vec::new(),
            rcv_state: RcvState::WaitStart,
            nb_points: 0,
        };
        proof {
            assert(t@ =~= Ld06Model::init());
        }
        t
    }

    /// CRC8 over the stored frame, its final (checksum) byte excluded.
    pub fn checksum(&self) -> (r: u8)
        requires
            self.frame@.len() >= 1,
        ensures
            r == crc8(self.frame@.drop_last()),
    {
        let n = self.frame.len() - 1;
        let mut crc: u8 = 0;
        let mut i: usize = 0;
        while i < n
            invariant
                i <= n,
                n == self.frame@.len() - 1,
                crc == crc8(self.frame@.subrange(0, i as int)),
            decreases n - i,
        {
            let index = crc ^ self.frame[i];
            crc = CRC_TABLE[index as usize];
            proof {
                assert(self.frame@.subrange(0, i + 1).drop_last() =~= self.frame@.subrange(
                    0,
                    i as int,
                ));
                assert(self.frame@.subrange(0, i + 1).last() == self.frame@[i as int]);
            }
            i = i + 1;
        }
        proof {
            assert(self.frame@.subrange(0, n as int) =~= self.frame@.drop_last());
        }
        crc
    }

    /// Decodes the stored frame: raw speed plus the `nb_points`
    /// interpolated samples.
    pub fn parse(&self) -> (r: (u16, Vec<Sample>))
        requires
            self.nb_points <= 31,
            self.frame@.len() == 3 * self.nb_points + 11,
        ensures
            r.0 == ld06_speed_raw(self.frame@),
            r.1@ == ld06_samples(self.frame@, self.nb_points as int),
    {
        let n = self.nb_points;
        let speed = u16le_from_slice(slice_subrange(self.frame.as_slice(), 2, 4));
        let start_angle = u16le_from_slice(slice_subrange(self.frame.as_slice(), 4, 6));
        let end_angle = u16le_from_slice(
            slice_subrange(self.frame.as_slice(), 6 + n * 3, 8 + n * 3),
        );
        let mut samples: Vec<Sample> = Vec::new();
        let mut i: usize = 0;
        while i < n
            invariant
                i <= n,
                n == self.nb_points <= 31,
                self.frame@.len() == 3 * n + 11,
                start_angle == ld06_start_angle(self.frame@),
                end_angle == ld06_end_angle(self.frame@, n as int),
                samples@.len() == i,
                forall|j: int|
                    0 <= j < i ==> samples@[j] == ld06_sample(self.frame@, n as int, j),
            decreases n - i,
        {
            let base: i64 = (start_angle as i64) * 10;
            let off: i64 = if n <= 1 {
                0
            } else if start_angle <= end_angle {
                let span: u64 = (end_angle - start_angle) as u64;
                proof {
                    assert(10 * (i as int) * (span as int) <= 10 * 30 * 65535)
                        by (nonlinear_arith)
                        requires
                            0 <= i <= 30,
                            0 <= span <= 65535,
                    ;
                }
                let num: u64 = 10 * (i as u64) * span;
                proof {
                    vstd::arithmetic::div_mod::lemma_div_nonincreasing(
                        num as int,
                        (n - 1) as int,
                    );
                }
                (num / ((n - 1) as u64)) as i64
            } else if (end_angle as u32) + 36000 >= (start_angle as u32) {
                let span: u64 = (end_angle as u64) + 36000 - (start_angle as u64);
                proof {
                    assert(10 * (i as int) * (span as int) <= 10 * 30 * 101535)
                        by (nonlinear_arith)
                        requires
                            0 <= i <= 30,
                            0 <= span <= 101535,
                    ;
                }
                let num: u64 = 10 * (i as u64) * span;
                proof {
                    vstd::arithmetic::div_mod::lemma_div_nonincreasing(
                        num as int,
                        (n - 1) as int,
                    );
                }
                (num / ((n - 1) as u64)) as i64
            } else {
                let span: u64 = (start_angle as u64) - 36000 - (end_angle as u64);
                proof {
                    assert(10 * (i as int) * (span as int) <= 10 * 30 * 29535)
                        by (nonlinear_arith)
                        requires
                            0 <= i <= 30,
                            0 <= span <= 29535,
                    ;
                }
                let num: u64 = 10 * (i as u64) * span;
                proof {
                    vstd::arithmetic::div_mod::lemma_div_nonincreasing(
                        num as int,
                        (n - 1) as int,
                    );
                }
                -((num / ((n - 1) as u64)) as i64)
            };
            let a: i64 = base + off;
            let a: i64 = if a > 360000 {
                a - 360000
            } else {
                a
            };
            let distance = u16le_from_slice(
                slice_subrange(self.frame.as_slice(), 6 + 3 * i, 8 + 3 * i),
            );
            let quality = self.frame[8 + 3 * i] as u16;
            let s = Sample { angle: a as i32, distance, quality };
            proof {
                assert(s == ld06_sample(self.frame@, n as int, i as int));
            }
            samples.push(s);
            i = i + 1;
        }
        proof {
            assert(samples@ =~= ld06_samples(self.frame@, self.nb_points as int));
        }
        (speed, samples)
    }

    /// Feeds one byte to the framing state machine. Exactly when the
    /// byte completes a frame whose checksum matches, the decoded
    /// frame is returned; a failed checksum discards the frame
    /// silently and the machine resynchronizes on the next start
    /// marker either way.
    pub fn put(&mut self, c: u8) -> (r: Option<(u16, Vec<Sample>)>)
        requires
            old(self)@.wf(),
        ensures
            final(self)@.wf(),
            final(self)@ == spec_put(old(self)@, c).0,
            scan_view(r) == spec_put(old(self)@, c).1,
    {
        self.buffer.push(c);
        match self.rcv_state {
            RcvState::WaitStart => {
                self.buffer.clear();
                if c == 0x54 {
                    self.buffer.push(0x54);
                    self.rcv_state = RcvState::WaitLen;
                } else {
                    self.buffer.clear();
                }
                proof {
                    assert(self@ =~= spec_put(old(self)@, c).0);
                }
            },
            RcvState::WaitLen => {
                self.nb_points = (c & 0x1F) as usize;
                proof {
                    assert(c & 0x1F < 32) by (bit_vector);
                }
                let nb_bytes = 3 * self.nb_points + 8;
                self.rcv_state = RcvState::GetPayload(nb_bytes);
                proof {
                    assert(self@ =~= spec_put(old(self)@, c).0);
                }
            },
            RcvState::GetPayload(n) => {
                let n = n - 1;
                self.rcv_state = if n == 0 {
                    RcvState::WaitChk
                } else {
                    RcvState::GetPayload(n)
                };
                proof {
                    assert(self@ =~= spec_put(old(self)@, c).0);
                }
            },
            RcvState::WaitChk => {
                self.rcv_state = RcvState::WaitStart;
                self.frame.clear();
                self.frame.append(&mut self.buffer);
                proof {
                    assert(self.frame@.drop_last() =~= old(self).buffer@);
                    assert(self@ =~= spec_put(old(self)@, c).0);
                }
                let calc_check = self.checksum();
                if c == calc_check {
                    let r = self.parse();
                    return Some(r);
                }
            },
        };
        None
    }
}

/// The decoded outputs of `push_bytes`, lifted to the model level.
pub open spec fn scans_view(r: Seq<(u16, Vec<Sample>)>) -> Seq<(u16, Seq<Sample>)> {
    Seq::new(r.len(), |i: int| (r[i].0, r[i].1@))
}

impl LD06Transport {
    /// Feeds a whole chunk of bytes, returning every frame decoded
    /// along the way, in order. Equivalent to calling `put` once per
    /// byte (see `lemma_run_append`).
    pub fn push_bytes(&mut self, bytes: &[u8]) -> (r: Vec<(u16, Vec<Sample>)>)
        requires
            old(self)@.wf(),
        ensures
            final(self)@.wf(),
            final(self)@ == spec_run(old(self)@, bytes@).0,
            scans_view(r@) == spec_run(old(self)@, bytes@).1,
    {
        let ghost m0 = self@;
        let mut r: Vec<(u16, Vec<Sample>)> = Vec::new();
        let mut i: usize = 0;
        while i < bytes.len()
            invariant
                i <= bytes@.len(),
                self@.wf(),
                self@ == spec_run(m0, bytes@.take(i as int)).0,
                scans_view(r@) == spec_run(m0, bytes@.take(i as int)).1,
            decreases bytes@.len() - i,
        {
            let c = bytes[i];
            let out = self.put(c);
            proof {
                lemma_run_snoc(m0, bytes@.take(i as int), c);
                assert(bytes@.take(i + 1) =~= bytes@.take(i as int).push(c));
            }
            if let Some(scan) = out {
                r.push(scan);
            }
            proof {
                assert(scans_view(r@) =~= spec_run(m0, bytes@.take(i + 1)).1);
            }
            i = i + 1;
        }
        proof {
            assert(bytes@.take(bytes@.len() as int) =~= bytes@);
        }
        r
    }
}

/// One step of the whole LD06 acquisition: framing, frame decode and
/// turn aggregation. Yields the new transport model, the new
/// in-progress turn, and the turns sealed by this byte, in order.
/// The frame's speed field accompanies each decoded frame but plays
/// no part in aggregation.
pub open spec fn engine_step(m: Ld06Model, turn: Seq<Option<Sample>>, c: u8) -> (
    Ld06Model,
    Seq<Option<Sample>>,
    Seq<Seq<Option<Sample>>>,
) {
    let (m2, emitted) = spec_put(m, c);
    match emitted {
        None => (m2, turn, Seq::empty()),
        Some(scan) => {
            let (t2, sealed) = crate::lidar::agg_run(turn, scan.1);
            (m2, t2, sealed)
        },
    }
}

/// The LD06 acquisition engine: owns the framing state and the
/// in-progress turn. The caller feeds it the raw bytes read from the
/// transport and publishes whatever turns it seals.
pub struct Ld06Engine {
    pub transport: LD06Transport,
    pub aggregator: crate::lidar::TurnAggregator,
}

impl Ld06Engine {
    pub open spec fn wf(&self) -> bool {
        &&& self.transport@.wf()
        &&& self.aggregator.wf()
    }

    pub fn new() -> (e: Ld06Engine)
        ensures
            e.wf(),
            e.transport@ == Ld06Model::init(),
            e.aggregator.turn.samples@.len() == 0,
    {
        Ld06Engine {
            transport: LD06Transport::new(),
            aggregator: crate::lidar::TurnAggregator::new(),
        }
    }

    /// Feeds one byte read from the transport; returns the turns the
    /// byte sealed (usually none, at most one per decoded sample).
    pub fn put(&mut self, c: u8) -> (sealed: Vec<Turn>)
        requires
            old(self).wf(),
        ensures
            final(self).wf(),
            ({
                let (m2, t2, sl) = engine_step(
                    old(self).transport@,
                    old(self).aggregator.turn.samples@,
                    c,
                );
                &&& final(self).transport@ == m2
                &&& final(self).aggregator.turn.samples@ == t2
                &&& crate::lidar::seals_view(sealed@) == sl
            }),
    {
        let out = self.transport.put(c);
        match out {
            None => {
                let sealed: Vec<Turn> = Vec::new();
                proof {
                    assert(crate::lidar::seals_view(sealed@) =~= Seq::<
                        Seq<Option<Sample>>,
                    >::empty());
                }
                sealed
            },
            Some((_speed, samples)) => self.aggregator.push_all(&samples),
        }
    }
}

/// Consuming one more byte after a run is one further step of the
/// machine, and appends whatever that step decodes.
pub proof fn lemma_run_snoc(m: Ld06Model, s: Seq<u8>, c: u8)
    ensures
        spec_run(m, s.push(c)).0 == spec_put(spec_run(m, s).0, c).0,
        spec_run(m, s.push(c)).1 == spec_run(m, s).1 + opt_seq(spec_put(spec_run(m, s).0, c).1),
{
    assert(s.push(c) =~= s + seq![c]);
    lemma_run_append(m, s, seq![c]);
    let m1 = spec_run(m, s).0;
    let (m2, o) = spec_put(m1, c);
    assert(seq![c][0] == c);
    assert(seq![c].drop_first() =~= Seq::<u8>::empty());
    assert(spec_run(m2, Seq::<u8>::empty()).0 == m2);
    assert(spec_run(m2, Seq::<u8>::empty()).1 =~= Seq::<(u16, Seq<Sample>)>::empty());
    assert(spec_run(m1, seq![c]).0 == m2);
    assert(spec_run(m1, seq![c]).1 =~= opt_seq(o));
}

/// A failed checksum emits nothing, yet leaves the decoder in the
/// same state as a successful one: waiting for the next start
/// marker with a clear buffer. Synchronization therefore survives a
/// corrupted frame, and whatever follows decodes as it would after a
/// good frame.
pub proof fn lemma_checksum_failure_resync(m: Ld06Model, c: u8)
    requires
        m.rcv_state is WaitChk,
    ensures
        c != crc8(m.buffer) ==> spec_put(m, c).1 is None,
        spec_put(m, c).0.rcv_state is WaitStart,
        spec_put(m, c).0.buffer.len() == 0,
        forall|bytes: Seq<u8>|
            #[trigger] spec_run(spec_put(m, c).0, bytes).1 == spec_run(
                Ld06Model { frame: spec_put(m, c).0.frame, nb_points: m.nb_points, ..Ld06Model::init() },
                bytes,
            ).1,
{
    let m2 = spec_put(m, c).0;
    assert forall|bytes: Seq<u8>|
        #[trigger] spec_run(m2, bytes).1 == spec_run(
            Ld06Model { frame: m2.frame, nb_points: m.nb_points, ..Ld06Model::init() },
            bytes,
        ).1 by {
        assert(m2 =~= Ld06Model { frame: m2.frame, nb_points: m.nb_points, ..Ld06Model::init() });
    }
}

/// Decoding is independent of read chunking: running the decoder over
/// the concatenation of two byte sequences gives the same final state
/// and the same decoded frames as running it over the first sequence
/// and then, from the state so reached, over the second.
pub proof fn lemma_run_append(m: Ld06Model, s1: Seq<u8>, s2: Seq<u8>)
    ensures
        spec_run(m, s1 + s2).0 == spec_run(spec_run(m, s1).0, s2).0,
        spec_run(m, s1 + s2).1 == spec_run(m, s1).1 + spec_run(spec_run(m, s1).0, s2).1,
    decreases s1.len(),
{
    if s1.len() == 0 {
        assert(s1 + s2 =~= s2);
        assert(spec_run(m, s1).1 + spec_run(spec_run(m, s1).0, s2).1 =~= spec_run(m, s2).1);
    } else {
        let (m1, o) = spec_put(m, s1[0]);
        assert((s1 + s2).drop_first() =~= s1.drop_first() + s2);
        lemma_run_append(m1, s1.drop_first(), s2);
        assert(opt_seq(o) + (spec_run(m1, s1.drop_first()).1 + spec_run(
            spec_run(m1, s1.drop_first()).0,
            s2,
        ).1) =~= (opt_seq(o) + spec_run(m1, s1.drop_first()).1) + spec_run(
            spec_run(m1, s1.drop_first()).0,
            s2,
        ).1);
    }
}

} // verus!
