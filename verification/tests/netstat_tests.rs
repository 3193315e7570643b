use host_snapshot::netstat::{parse_connection_line, parse_netstat_output, ConnectionEntry};

fn line(s: &str) -> Vec<u8> {
    s.as_bytes().to_vec()
}

#[test]
fn well_formed_line_yields_entry() {
    let e = parse_connection_line(b"  TCP    0.0.0.0:135            0.0.0.0:0              LISTENING       948").unwrap();
    assert_eq!(e, ConnectionEntry { port: 135, owning_process_id: 948 });
}

#[test]
fn header_line_is_skipped() {
    assert!(parse_connection_line(b"Proto  Local Address          Foreign Address        State           PID").is_none());
}

#[test]
fn blank_line_is_skipped() {
    assert!(parse_connection_line(b"").is_none());
}

#[test]
fn short_line_is_skipped() {
    assert!(parse_connection_line(b"Active Connections").is_none());
    assert!(parse_connection_line(b"  UDP    0.0.0.0:500    *:*    4").is_none());
}

#[test]
fn port_out_of_range_is_skipped() {
    assert!(parse_connection_line(b"  TCP    0.0.0.0:65536    0.0.0.0:0    LISTENING    4").is_none());
}

#[test]
fn largest_port_is_kept() {
    let e = parse_connection_line(b"  TCP    0.0.0.0:65535    0.0.0.0:0    LISTENING    4").unwrap();
    assert_eq!(e.port, 65535);
}

#[test]
fn non_numeric_port_is_skipped() {
    assert!(parse_connection_line(b"  TCP    0.0.0.0:http    0.0.0.0:0    LISTENING    4").is_none());
}

#[test]
fn address_without_port_is_skipped() {
    assert!(parse_connection_line(b"  TCP    0.0.0.0    0.0.0.0:0    LISTENING    4").is_none());
}

#[test]
fn non_numeric_pid_is_skipped() {
    assert!(parse_connection_line(b"  TCP    0.0.0.0:80    0.0.0.0:0    LISTENING    pid").is_none());
}

#[test]
fn bracketed_ipv6_address_yields_trailing_port() {
    let e = parse_connection_line(b"  TCP    [::1]:8080    [::]:0    LISTENING    77").unwrap();
    assert_eq!(e, ConnectionEntry { port: 8080, owning_process_id: 77 });
}

#[test]
fn bare_ipv6_address_takes_last_segment() {
    // The last-colon policy reads the final segment of an unbracketed
    // address as the port, when it happens to parse.
    let e = parse_connection_line(b"  TCP    ::1    [::]:0    LISTENING    77").unwrap();
    assert_eq!(e.port, 1);
}

#[test]
fn whole_listing_keeps_line_order() {
    let lines = vec![
        line("Active Connections"),
        line(""),
        line("Proto  Local Address          Foreign Address        State           PID"),
        line("  TCP    0.0.0.0:135            0.0.0.0:0              LISTENING       948"),
        line("  TCP    10.0.0.5:139           0.0.0.0:0              LISTENING       4"),
        line("  TCP    10.0.0.5:broken        0.0.0.0:0              LISTENING       4"),
        line("  TCP    [::]:445               [::]:0                 LISTENING       4"),
    ];
    let entries = parse_netstat_output(&lines);
    let pairs: Vec<(u16, i32)> = entries.iter().map(|e| (e.port, e.owning_process_id)).collect();
    assert_eq!(pairs, vec![(135, 948), (139, 4), (445, 4)]);
}

#[test]
fn signed_pid_is_accepted() {
    let e = parse_connection_line(b"  TCP    0.0.0.0:80    0.0.0.0:0    LISTENING    -7").unwrap();
    assert_eq!(e.owning_process_id, -7);
}
