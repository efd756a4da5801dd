use lidar_rd::ust05ln::{
    handshake_command, handshake_step, is_ack, parse_scan, start_command, stop_command,
    HandshakePhase,
};
use lidar_rd::Sample;

/// Builds a measurement line: 540 groups of 8 hex characters, then
/// 12 filler characters, 4332 payload characters in all.
fn make_line(groups: &[(usize, &str)]) -> Vec<u8> {
    let mut payload = vec![b'0'; 4332];
    for (i, g) in groups {
        assert_eq!(g.len(), 8);
        payload[8 * i..8 * i + 8].copy_from_slice(g.as_bytes());
    }
    let mut line = b"#GT00:0000000000AB:123456:".to_vec();
    line.extend_from_slice(&payload);
    line
}

#[test]
fn ust_parse_scan_known_line() {
    // group = 4 hex distance digits then 4 hex quality digits
    let line = make_line(&[
        (0, "00640005"), // distance 100, quality 5: present
        (7, "17700001"), // distance 6000: absent despite nonzero quality
        (8, "176F0002"), // distance 5999: present
    ]);
    let (ts, samples) = parse_scan(&line).expect("line should parse");
    assert_eq!(ts, 0xAB);
    assert_eq!(samples.len(), 540);
    // angle of slot i is i * 0.5 - 135 degrees, in millidegrees
    assert_eq!(samples[0], Some(Sample { angle: -135000, distance: 100, quality: 5 }));
    assert_eq!(samples[1], None); // quality 0
    assert_eq!(samples[7], None); // distance 6000 is out of range
    assert_eq!(samples[8], Some(Sample { angle: -131000, distance: 5999, quality: 2 }));
}

#[test]
fn ust_parse_scan_leftmost_match_after_garbage() {
    let mut line = b"noise".to_vec();
    line.extend(make_line(&[(0, "00640005")]));
    let (ts, samples) = parse_scan(&line).expect("line should parse");
    assert_eq!(ts, 0xAB);
    assert_eq!(samples[0], Some(Sample { angle: -135000, distance: 100, quality: 5 }));
}

#[test]
fn ust_parse_scan_rejects_malformed_lines() {
    assert!(parse_scan(b"").is_none());
    assert!(parse_scan(b"#GT00:").is_none());
    // lower-case hexadecimal digits do not match
    let mut bad = make_line(&[]);
    bad[6] = b'a';
    assert!(parse_scan(&bad).is_none());
    // a corrupted prefix does not match
    let mut bad = make_line(&[]);
    bad[0] = b'!';
    assert!(parse_scan(&bad).is_none());
    // a non-digit in the sequence-number field does not match
    let mut bad = make_line(&[]);
    bad[19] = b'A';
    assert!(parse_scan(&bad).is_none());
}

#[test]
fn ust_handshake_commands() {
    assert_eq!(stop_command(), b"#ST5297\n".to_vec());
    assert_eq!(start_command(), b"#GT15466\n".to_vec());
    assert_eq!(handshake_command(HandshakePhase::StopPending), Some(b"#ST5297\n".to_vec()));
    assert_eq!(handshake_command(HandshakePhase::StartPending), Some(b"#GT15466\n".to_vec()));
    assert_eq!(handshake_command(HandshakePhase::Done), None);
}

#[test]
fn ust_handshake_acknowledgement() {
    assert!(is_ack(b"#ST00A845\n"));
    assert!(!is_ack(b"#ST00A845"));
    assert!(!is_ack(b"#ST00A846\n"));
    assert!(!is_ack(b""));
}

#[test]
fn ust_handshake_steps() {
    // the stop command is retried until acknowledged
    assert_eq!(
        handshake_step(HandshakePhase::StopPending, b"nope"),
        HandshakePhase::StopPending
    );
    assert_eq!(
        handshake_step(HandshakePhase::StopPending, b"#ST00A845\n"),
        HandshakePhase::StartPending
    );
    // any reply to the start command ends the handshake
    assert_eq!(
        handshake_step(HandshakePhase::StartPending, b"#ST00A845\n"),
        HandshakePhase::Done
    );
    assert_eq!(handshake_step(HandshakePhase::StartPending, b"?"), HandshakePhase::Done);
    assert_eq!(handshake_step(HandshakePhase::Done, b"#ST00A845\n"), HandshakePhase::Done);
}
