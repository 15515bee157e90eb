use ianvs::mac::{DiscordUserAssociation, DiscordUserId, MacAddress};

#[test]
fn parses_lower_and_upper_case() {
    assert_eq!(
        MacAddress::parse("aa:BB:cC:01:23:ff"),
        Some(MacAddress([0xaa, 0xbb, 0xcc, 0x01, 0x23, 0xff]))
    );
}

#[test]
fn accepts_loose_forms_that_from_str_radix_accepts() {
    assert_eq!(MacAddress::parse("0:0:0:0:0:0"), Some(MacAddress([0; 6])));
    assert_eq!(
        MacAddress::parse("+a:00b:1:2:3:4"),
        Some(MacAddress([0x0a, 0x0b, 1, 2, 3, 4]))
    );
}

#[test]
fn rejects_wrong_number_of_parts() {
    assert_eq!(MacAddress::parse("aa:bb:cc:dd:ee"), None);
    assert_eq!(MacAddress::parse("aa:bb:cc:dd:ee:ff:00"), None);
    assert_eq!(MacAddress::parse(""), None);
}

#[test]
fn rejects_bad_parts() {
    assert_eq!(MacAddress::parse("aa:bb:cc:dd:ee:gg"), None);
    assert_eq!(MacAddress::parse("aa:bb:cc:dd:ee:100"), None);
    assert_eq!(MacAddress::parse("aa:bb::dd:ee:ff"), None);
    assert_eq!(MacAddress::parse("aa:bb:+:dd:ee:ff"), None);
    assert_eq!(MacAddress::parse("aa:bb:-1:dd:ee:ff"), None);
    assert_eq!(MacAddress::parse(" aa:bb:cc:dd:ee:ff"), None);
}

#[test]
fn formats_two_lower_case_digits_per_byte() {
    assert_eq!(
        MacAddress([0, 0x0f, 0xa0, 0xff, 0x10, 0x09]).to_string(),
        "00:0f:a0:ff:10:09"
    );
}

#[test]
fn format_then_parse_gives_the_same_address() {
    let m = MacAddress([0x12, 0xab, 0x00, 0x7f, 0x80, 0xfe]);
    assert_eq!(MacAddress::parse(&m.to_string()), Some(m));
}

#[test]
fn same_as_compares_all_bytes() {
    let a = MacAddress([1, 2, 3, 4, 5, 6]);
    assert!(a.same_as(&MacAddress([1, 2, 3, 4, 5, 6])));
    assert!(!a.same_as(&MacAddress([1, 2, 3, 4, 5, 7])));
}

#[test]
fn conversions_from_plain_values() {
    assert_eq!(MacAddress::from([9; 6]), MacAddress([9; 6]));
    assert_eq!(DiscordUserId::from(77u64), DiscordUserId(77));
}

#[test]
fn associated_user_of_each_association() {
    assert_eq!(
        DiscordUserAssociation::Associated(DiscordUserId(3)).associated_user(),
        Some(DiscordUserId(3))
    );
    assert_eq!(
        DiscordUserAssociation::AskedNotToAssociateUser.associated_user(),
        None
    );
}
