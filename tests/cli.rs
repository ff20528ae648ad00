use port_knocker::{parse_hex_payload, parse_port, parse_ports};

#[test]
fn valid_port() {
    assert_eq!(parse_port("80").unwrap(), 80);
}

#[test]
fn invalid_port() {
    assert!(parse_port("foo").is_err());
}

#[test]
fn valid_sequence() {
    assert_eq!(parse_ports("80,443").unwrap(), vec![80, 443]);
}

#[test]
fn invalid_sequence() {
    assert!(parse_ports("foo,123").is_err());
}

#[test]
fn port_bounds() {
    assert_eq!(parse_port("0").unwrap(), 0);
    assert_eq!(parse_port("65535").unwrap(), 65535);
    assert_eq!(parse_port("+22").unwrap(), 22);
    assert_eq!(parse_port("007").unwrap(), 7);
    assert!(parse_port("65536").is_err());
    assert!(parse_port("99999999999").is_err());
    assert!(parse_port("").is_err());
    assert!(parse_port("+").is_err());
    assert!(parse_port("-1").is_err());
    assert!(parse_port(" 80").is_err());
}

#[test]
fn port_error_message() {
    assert_eq!(parse_port("foo").unwrap_err(), "'foo' is not a valid port");
}

#[test]
fn sequence_trims_fields() {
    assert_eq!(parse_ports(" 7000 ,\t8000,9000\n").unwrap(), vec![7000, 8000, 9000]);
    assert_eq!(parse_ports("22").unwrap(), vec![22]);
    assert_eq!(parse_ports("1,1,1").unwrap(), vec![1, 1, 1]);
}

#[test]
fn sequence_first_bad_field_untrimmed() {
    assert_eq!(parse_ports("80, x ,y").unwrap_err(), "' x ' is not a valid port");
    assert_eq!(parse_ports("80,").unwrap_err(), "'' is not a valid port");
    assert_eq!(parse_ports("").unwrap_err(), "'' is not a valid port");
    assert_eq!(parse_ports("1,70000").unwrap_err(), "'70000' is not a valid port");
}

#[test]
fn hex_payload_decodes() {
    assert_eq!(*parse_hex_payload("deadbeef").unwrap(), vec![0xde, 0xad, 0xbe, 0xef]);
    assert_eq!(*parse_hex_payload("00FfA0").unwrap(), vec![0x00, 0xff, 0xa0]);
    assert_eq!(*parse_hex_payload("").unwrap(), Vec::<u8>::new());
}

#[test]
fn hex_payload_rejects() {
    let odd = parse_hex_payload("abc").unwrap_err();
    assert!(odd.starts_with("invalid hex payload: "));
    assert!(parse_hex_payload("zz").is_err());
    assert!(parse_hex_payload("é1").is_err());
}
