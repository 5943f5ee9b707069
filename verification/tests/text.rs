use apt_transport_r2::fields::Fields;
use apt_transport_r2::text;

const SAMPLES: [&str; 16] = [
    "",
    "\n",
    "\r\n",
    "\r",
    "a",
    "a\n",
    "a\r\n",
    "a\r",
    "a\n\nb",
    "a\r\r\nb\r",
    " a b ",
    "\t\u{2003}a=b=c\u{3000}\u{85}",
    "r2://r2://x",
    "key: value: more",
    "ÄÖÜ\nß\u{feff}",
    "==",
];

#[test]
fn lines_are_those_of_std() {
    for s in SAMPLES {
        let expected: Vec<&str> = s.lines().collect();
        assert_eq!(text::lines(s), expected);
    }
    assert_eq!(text::lines("a\r\nb\n\nc"), vec!["a", "b", "", "c"]);
}

#[test]
fn split_once_is_that_of_std() {
    for s in SAMPLES {
        for separator in ["=", ": ", "\n", "", "r2://", "/"] {
            let expected = s
                .split_once(separator)
                .map(|(a, b)| (a.to_string(), b.to_string()));
            assert_eq!(text::split_once(s, separator), expected);
        }
    }
    assert_eq!(
        text::split_once("a=b=c", "="),
        Some(("a".to_string(), "b=c".to_string()))
    );
}

#[test]
fn trim_start_matches_is_that_of_std() {
    for s in SAMPLES {
        for prefix in ["r2://", "a", "=", "zz"] {
            assert_eq!(text::trim_start_matches(s, prefix), s.trim_start_matches(prefix));
        }
    }
    assert_eq!(text::trim_start_matches("r2://r2://x", "r2://"), "x");
    assert_eq!(text::trim_start_matches("aaa", ""), "aaa");
}

#[test]
fn find_gives_the_first_position() {
    let s = text::chars_of("abcabc");
    let pattern = text::chars_of("bc");
    assert_eq!(text::find(&s, &pattern, 0), Some(1));
    assert_eq!(text::find(&s, &pattern, 2), Some(4));
    assert_eq!(text::find(&s, &pattern, 5), None);
    assert_eq!(text::find(&s, &[], 6), Some(6));
    assert_eq!(text::string_of(&s, 2, 4), "ca");
}

#[test]
fn white_space_is_that_of_std() {
    for c in '\0'..=char::MAX {
        assert_eq!(text::whitespace(c), c.is_whitespace());
    }
}

#[test]
fn trim_is_that_of_std() {
    for s in SAMPLES {
        assert_eq!(text::trim(s), s.trim());
    }
    assert_eq!(text::trim(" \t a b\r\n"), "a b");
}

#[test]
fn blank_is_what_trim_leaves_nothing_of() {
    for s in SAMPLES {
        assert_eq!(text::blank(s), text::trim(s).is_empty());
    }
    assert!(text::blank(" \u{2028}\r\n"));
    assert!(!text::blank("\u{200b}"));
}

#[test]
fn eq_ignore_ascii_case_is_that_of_std() {
    let names = ["Config-Item", "CONFIG-ITEM", "config-item", "Config-Itema", "Ä", "ä", "K", "\u{212a}", "@", "`", ""];
    for a in names {
        for b in names {
            assert_eq!(text::eq_ignore_ascii_case(a, b), a.eq_ignore_ascii_case(b));
        }
    }
    assert!(text::eq_ignore_ascii_case("Config-Item", "cONFIG-iTEM"));
}

#[test]
fn parse_u32_is_that_of_std() {
    for s in [
        "", "+", "-", "0", "-0", "+0", "00", "600", "+600", "++6", "6+", " 6", "6 ", "4294967295",
        "4294967296", "42949672950", "99999999999999999999", "٣", "0x10", "1_0",
    ] {
        assert_eq!(text::parse_u32(s), s.parse().ok());
    }
    assert_eq!(text::parse_u32("+00429"), Some(429));
}

#[test]
fn decimal_is_that_of_std() {
    for n in [0, 1, 9, 10, 11, 99, 100, 601, 1_000_000_007, u64::MAX] {
        assert_eq!(text::decimal(n), n.to_string());
    }
    assert_eq!(text::decimal(16), "16");
}

#[test]
fn adding_a_field_continues_its_value_and_leaves_the_others() {
    let mut fields = Fields::new();
    fields.add("A", "1");
    fields.add("B", "");
    fields.add("A", "2");
    fields.add("B", "3");
    assert_eq!(fields.len(), 2);
    assert_eq!((fields.name(0), fields.value(0)), ("A", "1\n2"));
    assert_eq!((fields.name(1), fields.value(1)), ("B", "3"));
    assert_eq!(fields.get("A").unwrap(), "1\n2");
    assert!(fields.get("a").is_none());
}
