use rawmem::help;
use rawmem::parse_base_arg;
use rawmem::resolve_base;

#[test]
fn parses_decimal() {
    assert_eq!(parse_base_arg("0"), Some(0));
    assert_eq!(parse_base_arg("123"), Some(123));
    assert_eq!(parse_base_arg("4294967296"), Some(4294967296));
    assert_eq!(parse_base_arg("18446744073709551615"), Some(u64::MAX));
}

#[test]
fn parses_hexadecimal() {
    assert_eq!(parse_base_arg("0x0"), Some(0));
    assert_eq!(parse_base_arg("0x10"), Some(16));
    assert_eq!(parse_base_arg("0X1A"), Some(26));
    assert_eq!(parse_base_arg("0xdeadBEEF"), Some(0xdead_beef));
    assert_eq!(parse_base_arg("0x100000000"), Some(0x1_0000_0000));
    assert_eq!(parse_base_arg("0xffffffffffffffff"), Some(u64::MAX));
}

#[test]
fn trims_whitespace() {
    assert_eq!(parse_base_arg(" 42 "), Some(42));
    assert_eq!(parse_base_arg("\t0x20\n"), Some(32));
}

#[test]
fn rejects_malformed_input() {
    assert_eq!(parse_base_arg(""), None);
    assert_eq!(parse_base_arg("   "), None);
    assert_eq!(parse_base_arg("0x"), None);
    assert_eq!(parse_base_arg("0X"), None);
    assert_eq!(parse_base_arg("xyz"), None);
    assert_eq!(parse_base_arg("0xg1"), None);
    assert_eq!(parse_base_arg("12a"), None);
    assert_eq!(parse_base_arg("-5"), None);
    assert_eq!(parse_base_arg("0x 10"), None);
    assert_eq!(parse_base_arg("1 2"), None);
}

#[test]
fn rejects_overflow() {
    assert_eq!(parse_base_arg("18446744073709551616"), None);
    assert_eq!(parse_base_arg("99999999999999999999"), None);
    assert_eq!(parse_base_arg("0x10000000000000000"), None);
    assert_eq!(parse_base_arg("0xffffffffffffffffff"), None);
}

#[test]
fn resolves_default_base() {
    assert_eq!(resolve_base(None), 0);
    assert_eq!(resolve_base(Some("0x100000000")), 0x1_0000_0000);
    assert_eq!(resolve_base(Some("256")), 256);
    assert_eq!(resolve_base(Some("bogus")), 0);
}

#[test]
fn help_describes_the_arguments() {
    let text = help();
    assert!(text.contains("target"));
    assert!(text.contains("base"));
    assert!(text.contains("rawmem"));
    assert!(text.contains("0x100000000"));
}
