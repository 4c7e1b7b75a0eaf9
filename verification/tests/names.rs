use oxide_rack::error::ApiError;
use oxide_rack::error::ResourceType;
use oxide_rack::id::id_text;
use oxide_rack::name::Name;
use oxide_rack::name::NameError;
use oxide_rack::name::Precedence;
use oxide_rack::vlan::parse_u16;
use oxide_rack::vlan::push_decimal;
use oxide_rack::vlan::ParseFault;
use oxide_rack::vlan::VlanID;
use oxide_rack::vlan::VLAN_MAX;

#[test]
fn valid_names_are_accepted() {
    for text in ["a", "simproject1", "lil-lightnin", "honor-roller", "a-", "z9-9"] {
        let name = Name::new(text).unwrap();
        assert_eq!(name.as_str(), text);
    }
    let longest = "a".repeat(63);
    assert_eq!(Name::new(&longest).unwrap().as_str(), longest);
}

#[test]
fn validation_is_idempotent() {
    let name = Name::new("my-instance").unwrap();
    let again = Name::new(name.as_str()).unwrap();
    assert_eq!(name, again);
    assert_eq!(again.as_str(), "my-instance");
}

#[test]
fn name_must_begin_with_lowercase_letter() {
    for text in ["-invalid-name", "1abc", "Abc", "_x", " a"] {
        let fault = Name::new(text).unwrap_err();
        assert_eq!(fault, NameError::BadStart);
        assert_eq!(fault.message(), "name must begin with an ASCII lowercase character");
    }
}

#[test]
fn rejection_names_first_offending_character() {
    let fault = Name::new("my_instance").unwrap_err();
    assert_eq!(fault, NameError::InvalidCharacter('_'));
    assert_eq!(
        fault.message(),
        "name contains invalid character: \"_\" (allowed characters are lowercase ASCII, \
         digits, and \"-\")"
    );
    assert_eq!(Name::new("sim_project").unwrap_err(), NameError::InvalidCharacter('_'));
    assert_eq!(Name::new("ab.c_d").unwrap_err(), NameError::InvalidCharacter('.'));
    assert_eq!(Name::new("abC").unwrap_err(), NameError::InvalidCharacter('C'));
    let fault = Name::new("caf\u{e9}").unwrap_err();
    assert_eq!(fault, NameError::InvalidCharacter('\u{e9}'));
    assert!(fault.message().contains("\"\u{e9}\""));
}

#[test]
fn empty_and_overlong_names_are_rejected() {
    assert_eq!(Name::new("").unwrap_err(), NameError::Empty);
    assert_eq!(NameError::Empty.message(), "name requires at least one character");
    let too_long = "a".repeat(64);
    assert_eq!(Name::new(&too_long).unwrap_err(), NameError::TooLong);
    assert_eq!(NameError::TooLong.message(), "name may contain at most 63 characters");
    let long_and_bad = "_".repeat(64);
    assert_eq!(Name::new(&long_and_bad).unwrap_err(), NameError::TooLong);
}

#[test]
fn names_are_ordered_as_in_a_dictionary() {
    let n = |t: &str| Name::new(t).unwrap();
    assert_eq!(n("a").precedence(&n("b")), Precedence::Before);
    assert_eq!(n("b").precedence(&n("a")), Precedence::After);
    assert_eq!(n("abc").precedence(&n("abc")), Precedence::Same);
    assert_eq!(n("ab").precedence(&n("abc")), Precedence::Before);
    assert_eq!(n("abc").precedence(&n("ab")), Precedence::After);
    assert_eq!(n("a-z").precedence(&n("a0")), Precedence::Before);
    assert_eq!(n("a9").precedence(&n("aa")), Precedence::Before);
    assert_eq!(n("simproject1").precedence(&n("simproject2")), Precedence::Before);
    let mut sorted = vec![n("honor-roller"), n("simproject1"), n("lil-lightnin")];
    sorted.sort();
    assert_eq!(sorted[0].precedence(&sorted[1]), Precedence::Before);
    assert_eq!(sorted[1].precedence(&sorted[2]), Precedence::Before);
}

#[test]
fn errors_report_status_and_message() {
    let e = ApiError::not_found(ResourceType::Project, "nonexistent");
    assert_eq!(e.status_code(), 404);
    assert_eq!(e.message(), "not found: project with name \"nonexistent\"");
    let e = ApiError::already_exists(ResourceType::Project, "simproject1");
    assert_eq!(e.status_code(), 400);
    assert_eq!(e.message(), "already exists: project \"simproject1\"");
    let e = ApiError::already_exists(ResourceType::Instance, "web");
    assert_eq!(e.message(), "already exists: instance \"web\"");
    let e = ApiError::invalid_request("nope");
    assert_eq!((e.status_code(), e.message()), (400, String::from("nope")));
    let e = ApiError::InvalidValue { label: String::from("5000"), message: String::from("bad") };
    assert_eq!(e.status_code(), 400);
    assert_eq!(e.message(), "unsupported value for \"5000\": bad");
    let e = ApiError::unavailable("sled is away");
    assert_eq!((e.status_code(), e.message()), (503, String::from("sled is away")));
    let e = ApiError::internal_error("broken");
    assert_eq!((e.status_code(), e.message()), (500, String::from("broken")));
    assert_eq!(e.clone(), e);
    assert_eq!(ResourceType::Sled.label(), "sled");
}

#[test]
fn identifiers_are_written_like_uuids() {
    assert_eq!(
        id_text(0x1eb2b543_b199_405f_b705_1739d01a197c),
        "1eb2b543-b199-405f-b705-1739d01a197c"
    );
    assert_eq!(id_text(0), "00000000-0000-0000-0000-000000000000");
    assert_eq!(id_text(u128::MAX), "ffffffff-ffff-ffff-ffff-ffffffffffff");
    let id = uuid::Uuid::new_v4();
    assert_eq!(id_text(id.as_u128()), id.to_string());
}

#[test]
fn vlan_identifiers_are_bounded() {
    assert_eq!(VLAN_MAX, 4094);
    assert_eq!(VlanID::new(0).unwrap().get(), 0);
    assert_eq!(VlanID::new(4094).unwrap().get(), 4094);
    assert_eq!(VlanID::new(12).unwrap().to_text(), "12");
    let e = VlanID::new(4095).unwrap_err();
    assert_eq!(
        e,
        ApiError::InvalidRequest { message: String::from("Invalid VLAN value: 4095") }
    );
    assert_eq!(e.status_code(), 400);
    let e = VlanID::new(65535).unwrap_err();
    assert_eq!(e.message(), "Invalid VLAN value: 65535");
}

#[test]
fn vlan_identifiers_are_parsed() {
    assert_eq!(VlanID::from_str("17").unwrap().get(), 17);
    assert_eq!(VlanID::from_str("+4094").unwrap().get(), 4094);
    assert_eq!(VlanID::from_str("0007").unwrap().get(), 7);
    let e = VlanID::from_str("4095").unwrap_err();
    assert_eq!(
        e,
        ApiError::InvalidRequest { message: String::from("Invalid VLAN value: 4095") }
    );
    for text in ["", "abc", "-1", "+", "12x", "70000", "99999x"] {
        let e = VlanID::from_str(text).unwrap_err();
        let expected = text.parse::<u16>().unwrap_err().to_string();
        assert_eq!(
            e,
            ApiError::InvalidValue { label: String::from(text), message: expected }
        );
    }
    assert_eq!(parse_u16("65535"), Ok(65535));
    assert_eq!(parse_u16("65536"), Err(ParseFault::TooLarge));
    assert_eq!(parse_u16(""), Err(ParseFault::Empty));
    assert_eq!(parse_u16("1 "), Err(ParseFault::InvalidDigit));
}

#[test]
fn decimal_text_agrees_with_the_standard_library() {
    for n in 0..=u16::MAX {
        let mut text = String::from("v");
        push_decimal(&mut text, n);
        assert_eq!(text, format!("v{}", n));
        assert_eq!(parse_u16(&n.to_string()), Ok(n));
        assert_eq!(parse_u16(&format!("+{:07}", n)), Ok(n));
    }
    for n in 0..=VLAN_MAX {
        assert_eq!(VlanID::new(n).unwrap().to_text(), n.to_string());
    }
    for text in ["65536", "100000", "+", "-", "-0", "++1", "1+", " 1", "1_0", "0x10", "١٢"] {
        assert_eq!(parse_u16(text).is_ok(), text.parse::<u16>().is_ok());
        let e = VlanID::from_str(text).unwrap_err();
        assert_eq!(e.message(), format!(
            "unsupported value for \"{}\": {}",
            text,
            text.parse::<u16>().unwrap_err()
        ));
    }
}
