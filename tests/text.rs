use netwatch::menu::{check_devices, log_file_name_text, parse_command, parse_mode, MenuCommand, StartupError};
use netwatch::records::{cross_reference, find_record, parse_address, CrossRef};
use netwatch::session::Mode;
use netwatch::text::{decimal_text, dotted_quad_text, log_record_text};

fn addr(a: u8, b: u8, c: u8, d: u8) -> u32 {
    u32::from_be_bytes([a, b, c, d])
}

#[test]
fn decimal_text_values() {
    assert_eq!(decimal_text(0), b"0".to_vec());
    assert_eq!(decimal_text(7), b"7".to_vec());
    assert_eq!(decimal_text(1234567890), b"1234567890".to_vec());
    assert_eq!(decimal_text(u64::MAX), b"18446744073709551615".to_vec());
}

#[test]
fn dotted_quad_values() {
    assert_eq!(dotted_quad_text(addr(10, 0, 0, 5)), b"10.0.0.5".to_vec());
    assert_eq!(dotted_quad_text(addr(255, 255, 255, 255)), b"255.255.255.255".to_vec());
    assert_eq!(dotted_quad_text(0), b"0.0.0.0".to_vec());
}

#[test]
fn log_record_format() {
    assert_eq!(
        String::from_utf8(log_record_text(addr(10, 0, 0, 5), 5)).unwrap(),
        "Traffic from ip 10.0.0.5 has been registered 5 times."
    );
    assert_eq!(
        String::from_utf8(log_record_text(addr(192, 168, 0, 1), 0)).unwrap(),
        "Traffic from ip 192.168.0.1 has been registered 0 times."
    );
}

#[test]
fn cross_reference_matching_record() {
    let line = "Traffic from ip 10.0.0.5 has been registered 5 times.";
    assert_eq!(cross_reference(line, addr(10, 0, 0, 5)), CrossRef::Registered { count: 5 });
}

#[test]
fn cross_reference_other_address() {
    let line = "Traffic from ip 10.0.0.7 has been registered 5 times.";
    assert_eq!(
        cross_reference(line, addr(10, 0, 0, 5)),
        CrossRef::OtherAddress { ip: addr(10, 0, 0, 7) }
    );
}

#[test]
fn cross_reference_zero_count() {
    let line = "Traffic from ip 10.0.0.5 has been registered 0 times.";
    assert_eq!(cross_reference(line, addr(10, 0, 0, 5)), CrossRef::NoTraffic);
}

#[test]
fn cross_reference_without_record() {
    assert_eq!(cross_reference("", addr(10, 0, 0, 5)), CrossRef::NoRecord);
    assert_eq!(cross_reference("hello", addr(10, 0, 0, 5)), CrossRef::NoRecord);
    assert_eq!(
        cross_reference("Traffic from ip 10.0.0.5 has been registered times.", addr(10, 0, 0, 5)),
        CrossRef::NoRecord
    );
}

#[test]
fn find_record_inside_line() {
    let line = "x: Traffic from ip 1.2.3.4 has been registered 42 times. trailing";
    assert_eq!(find_record(line), Some((addr(1, 2, 3, 4), 42)));
    let bad_octet = "Traffic from ip 1.2.3.400 has been registered 42 times.";
    assert_eq!(find_record(bad_octet), None);
}

#[test]
fn log_round_trip() {
    let a = addr(172, 16, 254, 3);
    let text = String::from_utf8(log_record_text(a, 123456)).unwrap();
    assert_eq!(find_record(&text), Some((a, 123456)));
}

#[test]
fn parse_address_values() {
    assert_eq!(parse_address("10.0.0.5"), Some(addr(10, 0, 0, 5)));
    assert_eq!(parse_address("255.255.255.255"), Some(u32::MAX));
    assert_eq!(parse_address("256.0.0.1"), None);
    assert_eq!(parse_address("10.0.0"), None);
    assert_eq!(parse_address("10.0.0.5 "), None);
    assert_eq!(parse_address(""), None);
}

#[test]
fn parse_mode_words() {
    assert_eq!(parse_mode("summary"), Some(Mode::Summary));
    assert_eq!(parse_mode("detailed"), Some(Mode::Detailed));
    assert_eq!(parse_mode("Summary"), None);
    assert_eq!(parse_mode(""), None);
}

#[test]
fn menu_commands() {
    assert_eq!(parse_command("0\n", 3), MenuCommand::ListLogs);
    assert_eq!(parse_command(" 101 ", 3), MenuCommand::CrossReference);
    assert_eq!(parse_command("336\r\n", 3), MenuCommand::DeleteLog);
    assert_eq!(parse_command("1\n", 3), MenuCommand::Capture { device: 0 });
    assert_eq!(parse_command("3\n", 3), MenuCommand::Capture { device: 2 });
    assert_eq!(parse_command("4\n", 3), MenuCommand::Invalid);
    assert_eq!(parse_command("abc\n", 3), MenuCommand::Invalid);
    assert_eq!(parse_command("\n", 3), MenuCommand::Invalid);
    assert_eq!(parse_command("1 2", 3), MenuCommand::Invalid);
    assert_eq!(parse_command("99999999999999999999999", 3), MenuCommand::Invalid);
}

#[test]
fn empty_device_list_is_reported() {
    assert_eq!(check_devices(0), Err(StartupError::NoDevices));
    assert_eq!(check_devices(2), Ok(()));
    assert_eq!(parse_command("1", 0), MenuCommand::Invalid);
}

#[test]
fn log_file_names() {
    assert_eq!(
        String::from_utf8(log_file_name_text(2024, 3, 7, 9, 5, 0)).unwrap(),
        "./logs/log202437950.txt"
    );
}
