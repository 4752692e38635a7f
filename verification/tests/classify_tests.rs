use xdcc_fetch::classify::{
    classify_join, classify_ping, format_ipv4, make_ping_reply, parse_dcc_send, DccScan,
};

#[test]
fn ping_yields_pong_reply() {
    let line = b"PING :123456";
    assert!(classify_ping(line));
    assert_eq!(make_ping_reply(line), b"PONG :123456".to_vec());
}

#[test]
fn ping_reply_keeps_terminator_verbatim() {
    let line = b"PING :98765\r\n";
    assert!(classify_ping(line));
    assert_eq!(make_ping_reply(line), b"PONG :98765\r\n".to_vec());
}

#[test]
fn ping_needs_numeric_argument() {
    assert!(!classify_ping(b"PING :x123"));
    assert!(!classify_ping(b"PING :"));
    assert!(!classify_ping(b"PONG :123"));
}

#[test]
fn join_echo_matches_anywhere_in_line() {
    assert!(classify_join(b":nick!user@host JOIN :#mychannel\r\n"));
    assert!(classify_join(b"JOIN :#c\n"));
    assert!(!classify_join(b":nick PRIVMSG me :hello\r\n"));
}

#[test]
fn dcc_send_quoted_filename_decodes() {
    let line = b"DCC SEND \"My File.zip\" 2130706433 5000 104857600";
    match parse_dcc_send(line) {
        DccScan::Offer(o) => {
            assert_eq!(o.filename, b"My File.zip".to_vec());
            assert_eq!(o.ip, 2130706433);
            assert_eq!(format_ipv4(o.ip), b"127.0.0.1".to_vec());
            assert_eq!(o.port, 5000);
            assert_eq!(o.size, 104857600);
        }
        _ => panic!("expected a decoded offer"),
    }
}

#[test]
fn dcc_send_bare_filename_decodes() {
    let line = b":bot PRIVMSG nick :\x01DCC SEND data.bin 16909060 6881 42\x01\r\n";
    match parse_dcc_send(line) {
        DccScan::Offer(o) => {
            assert_eq!(o.filename, b"data.bin".to_vec());
            assert_eq!(o.ip, 16909060);
            assert_eq!(format_ipv4(o.ip), b"1.2.3.4".to_vec());
            assert_eq!(o.port, 6881);
            assert_eq!(o.size, 42);
        }
        _ => panic!("expected a decoded offer"),
    }
}

#[test]
fn inert_line_matches_no_rule() {
    let line = b":server 372 nick :- message of the day\r\n";
    assert!(!classify_ping(line));
    assert!(!classify_join(line));
    assert!(matches!(parse_dcc_send(line), DccScan::NotOffer));
}

#[test]
fn dcc_send_with_missing_fields_is_no_offer() {
    assert!(matches!(parse_dcc_send(b"DCC SEND file.bin 123 456"), DccScan::NotOffer));
    assert!(matches!(parse_dcc_send(b"DCC SEND \"unterminated 1 2 3"), DccScan::NotOffer));
}

#[test]
fn dcc_send_address_overflow_is_malformed() {
    let line = b"DCC SEND file.bin 4294967296 5000 42";
    assert!(matches!(parse_dcc_send(line), DccScan::Malformed));
}

#[test]
fn dcc_send_port_overflow_is_malformed() {
    let line = b"DCC SEND file.bin 2130706433 65536 42";
    assert!(matches!(parse_dcc_send(line), DccScan::Malformed));
}

#[test]
fn dcc_send_size_overflow_is_malformed() {
    let line = b"DCC SEND file.bin 2130706433 5000 18446744073709551616";
    assert!(matches!(parse_dcc_send(line), DccScan::Malformed));
}

#[test]
fn dcc_send_size_at_limit_decodes() {
    let line = b"DCC SEND f 0 1 18446744073709551615";
    match parse_dcc_send(line) {
        DccScan::Offer(o) => {
            assert_eq!(o.size, u64::MAX);
            assert_eq!(o.ip, 0);
            assert_eq!(format_ipv4(o.ip), b"0.0.0.0".to_vec());
        }
        _ => panic!("expected a decoded offer"),
    }
}

#[test]
fn format_ipv4_all_octets_high() {
    assert_eq!(format_ipv4(u32::MAX), b"255.255.255.255".to_vec());
    assert_eq!(format_ipv4(3232235777), b"192.168.1.1".to_vec());
}
