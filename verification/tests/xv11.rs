use lidar_rd::xv11::{checksum, decode_data, decode_packet, get_min_max, Xv11Engine, XV11Transport};
use lidar_rd::Sample;

const BODY: [u8; 20] = [
    0xFA, 0xA5, 0xA0, 0x05, // start, index 0xA5, speed 1440
    0xE8, 0x03, 0xF4, 0x01, // slot 0: distance 1000, strength 500
    0x10, 0x81, 0x00, 0x00, // slot 1: invalid flag set
    0x20, 0x40, 0x00, 0x00, // slot 2: warning flag set
    0xD0, 0x07, 0xFF, 0xFF, // slot 3: distance 2000, strength 65535
];

fn packet() -> Vec<u8> {
    let mut p = BODY.to_vec();
    let c = checksum(&BODY);
    p.push((c & 0xFF) as u8);
    p.push((c >> 8) as u8);
    p
}

fn feed(t: &mut XV11Transport, bytes: &[u8]) -> Vec<(Option<u16>, Vec<Option<Sample>>)> {
    let mut out = vec![];
    for b in bytes {
        if let Some(pkt) = t.put(*b) {
            out.push(pkt);
        }
    }
    out
}

#[test]
fn xv11_checksum_value() {
    assert_eq!(checksum(&BODY), 0x3A6D);
}

#[test]
fn xv11_valid_packet_decodes() {
    let mut t = XV11Transport::new();
    let pkts = feed(&mut t, &packet());
    assert_eq!(pkts.len(), 1);
    let (speed, samples) = &pkts[0];
    assert_eq!(*speed, Some(1440)); // 1440 / 64 = 22.5 rpm
    // Index 0xA5: angular indexes 20..=23, shifted by -180 degrees.
    let expected = vec![
        Some(Sample { angle: -160000, distance: 1000, quality: 500 }),
        None,
        None,
        Some(Sample { angle: -157000, distance: 2000, quality: 65535 }),
    ];
    assert_eq!(*samples, expected);
}

#[test]
fn xv11_bad_checksum_gives_no_speed_and_absent_samples() {
    let mut pkt = packet();
    let last = pkt.len() - 1;
    pkt[last] ^= 0x01;
    let mut t = XV11Transport::new();
    let pkts = feed(&mut t, &pkt);
    assert_eq!(pkts.len(), 1);
    assert_eq!(pkts[0].0, None);
    assert_eq!(pkts[0].1, vec![None, None, None, None]);
    // A valid packet right afterwards still decodes.
    let pkts = feed(&mut t, &packet());
    assert_eq!(pkts.len(), 1);
    assert_eq!(pkts[0].0, Some(1440));
    // The engine keeps its previous speed across a corrupt packet.
    let mut e = Xv11Engine::new();
    for b in &pkt {
        e.put(*b);
    }
    assert_eq!(e.speed_raw, 0);
    assert_eq!(e.turn, vec![None, None, None, None]);
}

#[test]
fn xv11_index_out_of_range_resyncs() {
    let mut t = XV11Transport::new();
    let mut stream = vec![0xFA, 0x50]; // 0x50 is no valid index byte
    stream.extend(packet());
    let pkts = feed(&mut t, &stream);
    assert_eq!(pkts.len(), 1);
    assert_eq!(pkts[0].0, Some(1440));
}

#[test]
fn xv11_byte_at_a_time_equals_all_at_once() {
    let mut stream = vec![0x00, 0xFA, 0x12]; // noise and a false start
    stream.extend(packet());
    stream.extend(packet());
    let mut one = XV11Transport::new();
    let by_byte = feed(&mut one, &stream);
    let mut all = XV11Transport::new();
    let at_once = all.push_bytes(&stream);
    assert_eq!(by_byte, at_once);
    assert_eq!(by_byte.len(), 2);
}

#[test]
fn xv11_decode_data_flags() {
    assert_eq!(
        decode_data(20, &[0xE8, 0x03, 0xF4, 0x01]),
        Some(Sample { angle: -160000, distance: 1000, quality: 500 })
    );
    assert_eq!(decode_data(20, &[0xE8, 0x83, 0xF4, 0x01]), None); // invalid
    assert_eq!(decode_data(20, &[0xE8, 0x43, 0xF4, 0x01]), None); // warning
    // The two top bits of the high byte do not reach the distance.
    assert_eq!(
        decode_data(0, &[0xFF, 0x3F, 0x00, 0x00]),
        Some(Sample { angle: -180000, distance: 16383, quality: 0 })
    );
}

#[test]
fn xv11_decode_packet_reads_slots_after_header() {
    let (speed, samples) = decode_packet(&packet());
    assert_eq!(speed, Some(1440));
    assert_eq!(samples[0], Some(Sample { angle: -160000, distance: 1000, quality: 500 }));
}

#[test]
fn xv11_get_min_max() {
    assert_eq!(get_min_max(&vec![]), None);
    assert_eq!(get_min_max(&vec![None, None]), None);
    let s = |a: i32| Some(Sample { angle: a, distance: 1, quality: 1 });
    assert_eq!(get_min_max(&vec![s(5), None, s(-3), s(2)]), Some((-3, 5)));
}

#[test]
fn xv11_engine_seals_on_wrap() {
    let mut e = Xv11Engine::new();
    let mut sealed = vec![];
    for b in packet() {
        if let Some(t) = e.put(b) {
            sealed.push(t);
        }
    }
    // The first packet's negative angles fall below the initial
    // angle maximum of zero, so the (empty) first turn is sealed.
    assert_eq!(sealed.len(), 1);
    assert!(sealed[0].is_empty());
    assert_eq!(e.speed_raw, 1440);
    assert_eq!(e.turn.len(), 4);
    // The same packet again wraps below the running maximum and
    // seals the four accumulated slots.
    let mut sealed = vec![];
    for b in packet() {
        if let Some(t) = e.put(b) {
            sealed.push(t);
        }
    }
    assert_eq!(sealed.len(), 1);
    assert_eq!(sealed[0].len(), 4);
    assert_eq!(
        sealed[0][0],
        Some(Sample { angle: -160000, distance: 1000, quality: 500 })
    );
}
