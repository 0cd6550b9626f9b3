use resurfacer::text::{
    before, contains, decimal_text, eq_ignore_ascii_case, join, pad_right, replace, same, trim,
    trim_end, trim_end_matches, trim_start_matches, wide,
};

#[test]
fn searching_finds_what_std_finds() {
    let texts = ["", "a", "abc", "abcabc", "aab", "youtube.com/watch", "нічний режим"];
    for s in texts {
        for p in texts {
            assert_eq!(contains(s, p), s.contains(p), "{} in {}", p, s);
        }
    }
}

#[test]
fn trimming_gives_what_std_gives() {
    let texts = ["", " ", "\t\n a b \r\n", "//", "http://localhost:11434///", "\u{a0}x\u{2003}", "\u{200b}x"];
    for s in texts {
        assert_eq!(trim(s), s.trim());
        assert_eq!(trim_end(s), s.trim_end());
        assert_eq!(trim_end_matches(s, '/'), s.trim_end_matches('/'));
    }
    for s in ["https://https://a/b", "http://a", "https:/a", "", "httpshttps://"] {
        assert_eq!(trim_start_matches(s, "https://"), s.trim_start_matches("https://"));
    }
    assert_eq!(trim_start_matches("abc", ""), "abc");
}

#[test]
fn the_part_before_a_character() {
    assert_eq!(before("a/b/c", '/'), "a");
    assert_eq!(before("/b", '/'), "");
    assert_eq!(before("abc", '/'), "abc");
    assert_eq!(before("", '/'), "");
}

#[test]
fn replacing_gives_what_std_gives() {
    for s in ["", "aaa", "aaaa", "baab", "/api/generate", "x/api/generate/api/generate"] {
        assert_eq!(replace(s, "aa", "b"), s.replace("aa", "b"));
        assert_eq!(replace(s, "/api/generate", "/api/tags"), s.replace("/api/generate", "/api/tags"));
    }
}

#[test]
fn joining_puts_the_separator_between() {
    let texts = |v: &[&str]| v.iter().map(|s| s.to_string()).collect::<Vec<String>>();
    assert_eq!(join(&texts(&[]), ", "), "");
    assert_eq!(join(&texts(&["a"]), ", "), "a");
    assert_eq!(join(&texts(&["a", "", "c"]), ", "), "a, , c");
}

#[test]
fn padding_fills_up_with_spaces() {
    for (s, w) in [("", 3), ("ab", 3), ("abc", 3), ("abcd", 3), ("і", 2)] {
        assert_eq!(pad_right(s, w), format!("{:<w$}", s, w = w));
    }
}

#[test]
fn numbers_are_written_in_decimal() {
    for n in [0, 9, 10, 11_434, u64::MAX] {
        assert_eq!(decimal_text(n), n.to_string());
    }
}

#[test]
fn case_is_ignored_for_ascii_letters_only() {
    assert!(eq_ignore_ascii_case("OBS64.exe", "obs64.EXE"));
    assert!(!eq_ignore_ascii_case("obs64.exe", "obs64"));
    assert!(!eq_ignore_ascii_case("É", "é"));
    assert!(!eq_ignore_ascii_case("@", "`"));
    assert!(!eq_ignore_ascii_case("[", "{"));
    assert!(same("abc", "abc"));
    assert!(!same("abc", "abC"));
    assert!(!same("abc", "ab"));
}

#[test]
fn wide_strings_end_in_a_zero() {
    assert_eq!(wide(""), vec![0]);
    assert_eq!(wide("ab"), vec![0x61, 0x62, 0]);
    assert_eq!(wide("\u{ffff}\u{10000}\u{10ffff}"), vec![0xffff, 0xd800, 0xdc00, 0xdbff, 0xdfff, 0]);
    let s = "Нічний 🌙 режим";
    assert_eq!(wide(s), s.encode_utf16().chain(std::iter::once(0)).collect::<Vec<u16>>());
}

#[test]
fn white_space_is_twenty_five_characters() {
    let white = [
        0x9, 0xA, 0xB, 0xC, 0xD, 0x20, 0x85, 0xA0, 0x1680, 0x2000, 0x2001, 0x2002, 0x2003, 0x2004,
        0x2005, 0x2006, 0x2007, 0x2008, 0x2009, 0x200A, 0x2028, 0x2029, 0x202F, 0x205F, 0x3000,
    ];
    let mut found: Vec<u32> = vec![];
    for c in '\0'..=char::MAX {
        if c.is_whitespace() {
            found.push(c as u32);
            assert_eq!(trim(&c.to_string()), "");
        }
    }
    assert_eq!(found, white);
}
