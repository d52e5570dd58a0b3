use lempek_assets::names::{check_name, contains_illegal_char, reserved_name, InvalidName, MAX_NAME_BYTES};

#[test]
fn ordinary_names_are_accepted() {
    for name in ["docs", "report.pdf", "a b", "über", "日本語", ".hidden", "x", "", "-", "a.b.c", "name with spaces"] {
        assert_eq!(check_name(name), Ok(()), "{name:?}");
    }
}

#[test]
fn every_forbidden_character_is_rejected_wherever_it_stands() {
    let forbidden = [
        '<', '>', ':', '"', '/', '\\', '|', '?', '*', ',', ';', '=', '(', ')', '&', '#', '\'',
    ];
    for c in forbidden {
        for name in [format!("{c}"), format!("{c}tail"), format!("head{c}"), format!("he{c}ad")] {
            assert_eq!(check_name(&name), Err(InvalidName::IllegalCharacter), "{name:?}");
            assert!(contains_illegal_char(&name));
        }
    }
}

#[test]
fn characters_next_to_the_forbidden_ones_are_accepted() {
    for c in ['!', '$', '%', '+', '-', '.', '@', '[', ']', '^', '_', '`', '{', '}', '~', ' '] {
        let name = format!("a{c}b");
        assert_eq!(check_name(&name), Ok(()), "{name:?}");
    }
}

#[test]
fn control_characters_are_rejected() {
    for c in ['\u{0}', '\t', '\n', '\r', '\u{1b}', '\u{1f}', '\u{7f}', '\u{80}', '\u{85}', '\u{9f}'] {
        let name = format!("a{c}b");
        assert_eq!(check_name(&name), Err(InvalidName::IllegalCharacter), "{:?}", c);
    }
    assert_eq!(check_name("a\u{20}b"), Ok(()));
    assert_eq!(check_name("a\u{7e}b"), Ok(()));
    assert_eq!(check_name("a\u{a0}b"), Ok(()));
}

#[test]
fn reserved_names_are_rejected_in_any_case() {
    let mut reserved: Vec<String> =
        ["CON", "PRN", "AUX", "NUL"].iter().map(|s| s.to_string()).collect();
    for n in 1..=9 {
        reserved.push(format!("COM{n}"));
        reserved.push(format!("LPT{n}"));
    }
    assert_eq!(reserved.len(), 22);
    for name in reserved {
        let lower = name.to_lowercase();
        let mixed: String = name
            .chars()
            .enumerate()
            .map(|(i, c)| if i % 2 == 0 { c.to_ascii_lowercase() } else { c })
            .collect();
        for candidate in [name.clone(), lower, mixed] {
            assert_eq!(check_name(&candidate), Err(InvalidName::ReservedName), "{candidate:?}");
            assert!(reserved_name(&candidate));
        }
    }
}

#[test]
fn names_that_only_look_reserved_are_accepted() {
    for name in ["COM0", "LPT0", "COM10", "LPT", "COM", "CONS", "NULL", "AUX1", "CON.txt", "xCON", "ＣＯＮ", "COMx"] {
        assert_eq!(check_name(name), Ok(()), "{name:?}");
        assert!(!reserved_name(name));
    }
}

#[test]
fn length_is_counted_in_bytes_and_255_is_the_last_that_fits() {
    assert_eq!(MAX_NAME_BYTES, 255);
    assert_eq!(check_name(&"a".repeat(255)), Ok(()));
    assert_eq!(check_name(&"a".repeat(256)), Err(InvalidName::TooLong));
    // 'é' takes two bytes: 127 of them are 254 bytes, 128 are 256.
    assert_eq!(check_name(&"é".repeat(127)), Ok(()));
    assert_eq!(check_name(&"é".repeat(128)), Err(InvalidName::TooLong));
    assert_eq!(check_name(&format!("{}a", "é".repeat(127))), Ok(()));
}

#[test]
fn the_first_broken_rule_is_the_one_reported() {
    let long_and_illegal = format!("{}?", "a".repeat(300));
    assert_eq!(check_name(&long_and_illegal), Err(InvalidName::IllegalCharacter));
}

#[test]
fn messages_list_all_that_is_forbidden() {
    let chars = InvalidName::IllegalCharacter.message();
    assert!(chars.starts_with("You used illegal character in name.\nList of illegal chars: "));
    for c in ['<', '>', ':', '"', '/', '\\', '|', '?', '*', ',', ';', '=', '(', ')', '&', '#', '\''] {
        assert!(chars.contains(&format!("'{c}'")), "{c}");
    }
    let names = InvalidName::ReservedName.message();
    assert!(names.starts_with("You used illegal name.\nList of illegal names: "));
    for n in ["CON", "PRN", "AUX", "NUL", "COM1", "COM9", "LPT1", "LPT9"] {
        assert!(names.contains(&format!("'{n}'")), "{n}");
    }
    assert_eq!(InvalidName::TooLong.message(), "Name is too long");
}
