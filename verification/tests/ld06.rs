use lidar_rd::ld06::{Ld06Engine, LD06Transport, RcvState, CRC_TABLE};
use lidar_rd::ld06::u16le_from_slice;
use lidar_rd::Sample;

fn crc8(bytes: &[u8]) -> u8 {
    bytes.iter().fold(0u8, |crc, b| CRC_TABLE[((crc ^ b) & 0xFF) as usize])
}

fn make_frame(len_byte: u8, speed: u16, start: u16, end: u16, triples: &[(u16, u8)], ts: u16) -> Vec<u8> {
    let mut f = vec![0x54, len_byte];
    f.extend_from_slice(&speed.to_le_bytes());
    f.extend_from_slice(&start.to_le_bytes());
    for (d, c) in triples {
        f.extend_from_slice(&d.to_le_bytes());
        f.push(*c);
    }
    f.extend_from_slice(&end.to_le_bytes());
    f.extend_from_slice(&ts.to_le_bytes());
    let crc = crc8(&f);
    f.push(crc);
    f
}

fn feed(t: &mut LD06Transport, bytes: &[u8]) -> Vec<(u16, Vec<Sample>)> {
    let mut out = vec![];
    for b in bytes {
        if let Some(scan) = t.put(*b) {
            out.push(scan);
        }
    }
    out
}

#[test]
fn ld06_decodes_known_frame() {
    let frame = make_frame(3, 3600, 1000, 1600, &[(100, 10), (200, 20), (300, 30)], 0x1234);
    assert_eq!(
        frame,
        vec![
            0x54, 0x03, 0x10, 0x0E, 0xE8, 0x03, 0x64, 0x00, 0x0A, 0xC8, 0x00, 0x14, 0x2C,
            0x01, 0x1E, 0x40, 0x06, 0x34, 0x12, 0x25
        ]
    );
    let mut t = LD06Transport::new();
    let scans = feed(&mut t, &frame);
    assert_eq!(scans.len(), 1);
    let (speed, samples) = &scans[0];
    assert_eq!(*speed, 3600); // 3600 / 360 = 10 rotations per second
    let expected = vec![
        Sample { angle: 10000, distance: 100, quality: 10 },
        Sample { angle: 13000, distance: 200, quality: 20 },
        Sample { angle: 16000, distance: 300, quality: 30 },
    ];
    assert_eq!(*samples, expected);
}

#[test]
fn ld06_wrap_interpolation() {
    // start 359.00 deg, end 1.00 deg: the span wraps past zero.
    let frame = make_frame(3, 720, 35900, 100, &[(500, 1), (600, 2), (700, 3)], 0);
    let mut t = LD06Transport::new();
    let scans = feed(&mut t, &frame);
    assert_eq!(scans.len(), 1);
    let angles: Vec<i32> = scans[0].1.iter().map(|s| s.angle).collect();
    // step is (100 + 36000 - 35900) / 2 = 100 centidegrees; the last
    // interpolated angle exceeds 360 degrees and is reduced by a circle.
    assert_eq!(angles, vec![359000, 360000, 1000]);
}

#[test]
fn ld06_descending_interpolation() {
    // start 500.00 deg, end 10.00 deg: even widened by a full circle
    // the span is negative (-130.00 deg), so the angles descend.
    let frame = make_frame(3, 0, 50000, 1000, &[(1, 1), (2, 2), (3, 3)], 0);
    let mut t = LD06Transport::new();
    let scans = feed(&mut t, &frame);
    assert_eq!(scans.len(), 1);
    let angles: Vec<i32> = scans[0].1.iter().map(|s| s.angle).collect();
    // 500000, 435000 and 370000 millidegrees, each reduced by one circle
    assert_eq!(angles, vec![140000, 75000, 10000]);
}

#[test]
fn ld06_single_point_frame_gets_start_angle() {
    let frame = make_frame(1, 360, 9000, 12000, &[(42, 7)], 0);
    let mut t = LD06Transport::new();
    let scans = feed(&mut t, &frame);
    assert_eq!(scans.len(), 1);
    assert_eq!(scans[0].1, vec![Sample { angle: 90000, distance: 42, quality: 7 }]);
}

#[test]
fn ld06_zero_point_frame_decodes_empty() {
    // The low five bits of the length byte give the point count;
    // 0x20 encodes zero points and the other bits are ignored.
    let frame = make_frame(0x20, 3600, 1000, 1600, &[], 0);
    assert_eq!(frame.len(), 11);
    let mut t = LD06Transport::new();
    let scans = feed(&mut t, &frame);
    assert_eq!(scans.len(), 1);
    assert_eq!(scans[0].0, 3600);
    assert!(scans[0].1.is_empty());
}

#[test]
fn ld06_checksum_corruption_resyncs() {
    let frame = make_frame(3, 3600, 1000, 1600, &[(100, 10), (200, 20), (300, 30)], 0x1234);
    let mut corrupted = frame.clone();
    let last = corrupted.len() - 1;
    corrupted[last] ^= 0x01;
    let mut t = LD06Transport::new();
    let scans = feed(&mut t, &corrupted);
    assert!(scans.is_empty());
    // A fresh valid frame right afterwards still decodes.
    let scans = feed(&mut t, &frame);
    assert_eq!(scans.len(), 1);
    assert_eq!(scans[0].0, 3600);
    assert_eq!(scans[0].1.len(), 3);
}

#[test]
fn ld06_byte_at_a_time_equals_all_at_once() {
    let mut stream = vec![0x11, 0x22]; // leading noise
    stream.extend(make_frame(3, 3600, 1000, 1600, &[(100, 10), (200, 20), (300, 30)], 7));
    stream.extend(make_frame(1, 360, 9000, 12000, &[(42, 7)], 0));
    let mut one = LD06Transport::new();
    let by_byte = feed(&mut one, &stream);
    let mut all = LD06Transport::new();
    let at_once = all.push_bytes(&stream);
    assert_eq!(by_byte, at_once);
    assert_eq!(by_byte.len(), 2);
}

#[test]
fn ld06_transport_checksum_folds_table() {
    let frame = make_frame(2, 1, 2, 3, &[(4, 5), (6, 7)], 8);
    let t = LD06Transport {
        frame: frame.clone(),
        buffer: vec![],
        rcv_state: RcvState::WaitStart,
        nb_points: 0,
    };
    assert_eq!(t.checksum(), crc8(&frame[..frame.len() - 1]));
}

#[test]
fn u16le_from_slice_reads_little_endian() {
    assert_eq!(u16le_from_slice(&[0x34, 0x12]), 0x1234);
    assert_eq!(u16le_from_slice(&[0xFF, 0x00]), 255);
}

#[test]
fn ld06_engine_seals_turn_on_wrap() {
    let frame1 = make_frame(3, 3600, 1000, 1600, &[(100, 10), (200, 20), (300, 30)], 0);
    // Angles 359.0, 360.0, then 1.0 degrees: the third sample wraps.
    let frame2 = make_frame(3, 720, 35900, 100, &[(500, 1), (600, 2), (700, 3)], 0);
    let mut e = Ld06Engine::new();
    let mut sealed = vec![];
    for b in frame1.iter().chain(frame2.iter()) {
        sealed.extend(e.put(*b));
    }
    assert_eq!(sealed.len(), 1);
    let angles: Vec<i32> = sealed[0].samples.iter().map(|s| s.unwrap().angle).collect();
    assert_eq!(angles, vec![10000, 13000, 16000, 359000, 360000]);
    // The new in-progress turn starts with the wrap sample.
    let current: Vec<i32> =
        e.aggregator.turn.samples.iter().map(|s| s.unwrap().angle).collect();
    assert_eq!(current, vec![1000]);
}
