use adb_trigger::grammar::{check_addr, check_code, parse, Command};

#[test]
fn connect_line_parses_to_connect_with_captured_address() {
    let c = parse(b"c-192.168.1.5:5555");
    assert_eq!(c, Command::Connect { address: b"192.168.1.5:5555".to_vec() });
}

#[test]
fn connect_line_minimal_address() {
    let c = parse(b"c-1.2.3.4:5");
    assert_eq!(c, Command::Connect { address: b"1.2.3.4:5".to_vec() });
}

#[test]
fn connect_line_with_three_octets_is_unrecognized() {
    assert_eq!(parse(b"c-192.168.1:5555"), Command::Unrecognized);
}

#[test]
fn connect_line_without_port_is_unrecognized() {
    assert_eq!(parse(b"c-192.168.1.5"), Command::Unrecognized);
    assert_eq!(parse(b"c-192.168.1.5:"), Command::Unrecognized);
}

#[test]
fn connect_line_with_letters_in_address_is_unrecognized() {
    assert_eq!(parse(b"c-a.2.3.4:5"), Command::Unrecognized);
    assert_eq!(parse(b"c-1.2.3.4:5x"), Command::Unrecognized);
}

#[test]
fn connect_line_with_trailing_text_is_unrecognized() {
    assert_eq!(parse(b"c-1.2.3.4:5 "), Command::Unrecognized);
}

#[test]
fn disconnect_line_captures_remainder_verbatim() {
    let c = parse(b"d-192.168.1.5:5555");
    assert_eq!(c, Command::Disconnect { target: b"192.168.1.5:5555".to_vec() });
}

#[test]
fn disconnect_target_may_be_opaque_text() {
    let c = parse(b"d-some opaque identifier");
    assert_eq!(c, Command::Disconnect { target: b"some opaque identifier".to_vec() });
}

#[test]
fn disconnect_line_with_empty_target_is_unrecognized() {
    assert_eq!(parse(b"d-"), Command::Unrecognized);
}

#[test]
fn pair_line_parses_to_pair_with_address_and_code() {
    let c = parse(b"p-192.168.1.5:5555-123456");
    assert_eq!(
        c,
        Command::Pair { address: b"192.168.1.5:5555".to_vec(), code: b"123456".to_vec() }
    );
}

#[test]
fn pair_code_of_five_digits_is_unrecognized() {
    assert_eq!(parse(b"p-192.168.1.5:5555-12345"), Command::Unrecognized);
}

#[test]
fn pair_code_of_seven_digits_is_unrecognized() {
    assert_eq!(parse(b"p-192.168.1.5:5555-1234567"), Command::Unrecognized);
}

#[test]
fn pair_code_with_letter_is_unrecognized() {
    assert_eq!(parse(b"p-192.168.1.5:5555-12345a"), Command::Unrecognized);
}

#[test]
fn pair_line_without_code_is_unrecognized() {
    assert_eq!(parse(b"p-192.168.1.5:5555"), Command::Unrecognized);
    assert_eq!(parse(b"p-192.168.1.5:5555-"), Command::Unrecognized);
}

#[test]
fn garbage_line_is_unrecognized() {
    assert_eq!(parse(b"garbage"), Command::Unrecognized);
}

#[test]
fn empty_line_is_unrecognized() {
    assert_eq!(parse(b""), Command::Unrecognized);
}

#[test]
fn unknown_prefix_is_unrecognized() {
    assert_eq!(parse(b"x-1.2.3.4:5"), Command::Unrecognized);
}

#[test]
fn check_addr_accepts_dotted_quad_with_port() {
    assert!(check_addr(b"10.0.0.1:42"));
    assert!(check_addr(b"192.168.1.5:5555"));
    assert!(check_addr(b"999.999.999.999:99999"));
}

#[test]
fn check_addr_rejects_malformed_addresses() {
    assert!(!check_addr(b""));
    assert!(!check_addr(b"1.2.3.4"));
    assert!(!check_addr(b"1.2.3:5"));
    assert!(!check_addr(b"1.2.3.4.5:6"));
    assert!(!check_addr(b".2.3.4:5"));
    assert!(!check_addr(b"1..3.4:5"));
    assert!(!check_addr(b"1.2.3.4:"));
    assert!(!check_addr(b"1.2.3.4:5:6"));
}

#[test]
fn check_code_requires_exactly_six_digits() {
    assert!(check_code(b"000000"));
    assert!(check_code(b"123456"));
    assert!(!check_code(b"12345"));
    assert!(!check_code(b"1234567"));
    assert!(!check_code(b"12345a"));
    assert!(!check_code(b""));
}
