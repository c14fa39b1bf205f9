use geocode_csv::text::char_ascii_lower;
use geocode_csv::text::char_is_whitespace;
use geocode_csv::text::chars_of;
use geocode_csv::text::push_lowercased;
use geocode_csv::text::str_ends_with;
use geocode_csv::text::str_eq;
use geocode_csv::text::str_eq_ignore_ascii_case;
use geocode_csv::text::str_is_blank;
use geocode_csv::text::str_lt;
use geocode_csv::text::string_of;
use geocode_csv::text::trim;

const SAMPLES: [&str; 12] = [
    "",
    " ",
    "a",
    "A",
    "ab",
    "b",
    " a b \t",
    "\u{3000}x\u{a0}",
    "é",
    "e\u{301}",
    "Zürich",
    "\u{10ffff}",
];

#[test]
fn whitespace_is_what_the_standard_library_takes_for_it() {
    for code in 0..=0x3100u32 {
        if let Some(c) = char::from_u32(code) {
            assert_eq!(char_is_whitespace(c), c.is_whitespace(), "U+{:04X}", code);
        }
    }
    assert!(!char_is_whitespace('\u{feff}'));
    assert!(!char_is_whitespace('\u{10ffff}'));
}

#[test]
fn trimming_is_what_the_standard_library_does() {
    for sample in SAMPLES {
        assert_eq!(trim(sample), sample.trim());
        assert_eq!(str_is_blank(sample), sample.trim().is_empty());
    }
    assert_eq!(trim(" \t\n 123 Main  Street\r\n"), "123 Main  Street");
    assert_eq!(trim("\u{2003}"), "");
}

#[test]
fn strings_are_compared_as_the_standard_library_compares_them() {
    for a in SAMPLES {
        for b in SAMPLES {
            assert_eq!(str_eq(a, b), a == b, "{:?} == {:?}", a, b);
            assert_eq!(str_lt(a, b), a < b, "{:?} < {:?}", a, b);
            assert_eq!(str_ends_with(a, b), a.ends_with(b), "{:?} ends with {:?}", a, b);
            assert_eq!(
                str_eq_ignore_ascii_case(a, b),
                a.eq_ignore_ascii_case(b),
                "{:?} ~ {:?}",
                a,
                b
            );
        }
    }
}

#[test]
fn only_ascii_capitals_are_put_in_lower_case() {
    for code in 0..=0x250u32 {
        if let Some(c) = char::from_u32(code) {
            assert_eq!(char_ascii_lower(c), c.to_ascii_lowercase());
        }
    }
    let mut out = "X:".to_owned();
    push_lowercased(&mut out, "Zürich ÉCOLE");
    assert_eq!(out, "X:zürich École");
}

#[test]
fn strings_are_made_of_their_characters() {
    for sample in SAMPLES {
        let chars = chars_of(sample);
        assert_eq!(chars, sample.chars().collect::<Vec<_>>());
        assert_eq!(string_of(&chars, 0, chars.len()), sample);
    }
    let chars = chars_of("Zürich");
    assert_eq!(string_of(&chars, 1, 3), "ür");
    assert_eq!(string_of(&chars, 6, 6), "");
}
