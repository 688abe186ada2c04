use usage_tracker::text::{
    chars_of, contains_chars, is_whitespace, replace_char_chars, same_chars, starts_with_chars,
    trim_chars, trim_end_char_chars,
};
use usage_tracker::utf16::{decode_utf16, decode_utf16_prefix};

fn text(v: &[char]) -> String {
    v.iter().collect()
}

fn chars(s: &str) -> Vec<char> {
    s.chars().collect()
}

#[test]
fn whitespace_matches_std() {
    for u in 0u32..0x3100 {
        if let Some(c) = char::from_u32(u) {
            assert_eq!(is_whitespace(c), c.is_whitespace(), "code point {u:#x}");
        }
    }
    for u in [0xFEFFu32, 0x10FFFF, 0x1F600, 0x180E] {
        let c = char::from_u32(u).unwrap();
        assert_eq!(is_whitespace(c), c.is_whitespace(), "code point {u:#x}");
    }
}

#[test]
fn trim_matches_std() {
    let samples = [
        "",
        "   ",
        "  Firefox  ",
        "\t\nNotepad\r\n",
        "\u{3000}全角\u{3000}",
        "\u{A0}no-break\u{A0}",
        "inner  space",
        "\u{2003}em\u{205F}",
        "x",
        "\u{FEFF}zero width\u{FEFF}",
    ];
    for s in samples {
        let trimmed = trim_chars(&chars(s));
        assert_eq!(text(&trimmed), s.trim(), "sample {s:?}");
    }
}

#[test]
fn trim_end_char_removes_only_trailing() {
    let r = trim_end_char_chars(&chars("C:\\Windows\\\\\\"), '\\');
    assert_eq!(text(&r), "C:\\Windows");
    let r = trim_end_char_chars(&chars("\\\\"), '\\');
    assert_eq!(text(&r), "");
    let r = trim_end_char_chars(&chars("\\a"), '\\');
    assert_eq!(text(&r), "\\a");
}

#[test]
fn replace_char_matches_std() {
    for s in ["C:/Windows/System32", "no slashes", "//", "a/b\\c"] {
        let r = replace_char_chars(&chars(s), '/', '\\');
        assert_eq!(text(&r), s.replace('/', "\\"));
    }
}

#[test]
fn contains_matches_std() {
    let cases = [
        ("chrome_crashpad_handler", "crashpad"),
        ("crashpa", "crashpad"),
        ("", ""),
        ("abc", ""),
        ("abcabd", "abd"),
        ("aaa", "aaaa"),
        ("gracefulshutdownwindow", "gracefulshutdownwindow"),
    ];
    for (s, p) in cases {
        assert_eq!(contains_chars(&chars(s), &chars(p)), s.contains(p), "{s:?} {p:?}");
    }
}

#[test]
fn starts_with_and_same_chars() {
    assert!(starts_with_chars(&chars("c:\\windows\\x.exe"), &chars("c:\\windows\\")));
    assert!(!starts_with_chars(&chars("c:\\windowsx\\x.exe"), &chars("c:\\windows\\")));
    assert!(!starts_with_chars(&chars("c:"), &chars("c:\\windows\\")));
    assert!(same_chars(&chars("settings"), &chars("settings")));
    assert!(!same_chars(&chars("settings"), &chars("setting")));
    assert!(!same_chars(&chars("settings"), &chars("Settings")));
}

#[test]
fn chars_of_keeps_every_character() {
    let s = "Zoë 日本 🎉";
    assert_eq!(chars_of(s), s.chars().collect::<Vec<char>>());
}

#[test]
fn decode_matches_std_lossy() {
    let samples: Vec<Vec<u16>> = vec![
        vec![],
        "Hello, world".encode_utf16().collect(),
        "🎉 party ümlaut".encode_utf16().collect(),
        vec![0xD800],
        vec![0xDC00, 0x41],
        vec![0xD83C, 0x41, 0xDF89],
        vec![0xD83C, 0xDF89, 0xD83C],
        vec![0xDBFF, 0xDFFF, 0xFFFF, 0x0000],
    ];
    for units in &samples {
        assert_eq!(decode_utf16(units), String::from_utf16_lossy(units), "units {units:?}");
    }
    let mut seed: u32 = 12345;
    for _ in 0..200 {
        let mut units = Vec::new();
        for _ in 0..12 {
            seed = seed.wrapping_mul(1103515245).wrapping_add(12345);
            let pick = (seed >> 16) % 6;
            let u = match pick {
                0 => 0xD800 + ((seed >> 3) % 0x400) as u16,
                1 => 0xDC00 + ((seed >> 5) % 0x400) as u16,
                _ => (seed >> 8) as u16,
            };
            units.push(u);
        }
        assert_eq!(decode_utf16(&units), String::from_utf16_lossy(&units), "units {units:?}");
    }
}

#[test]
fn decode_prefix_takes_only_the_prefix() {
    let units: Vec<u16> = "Notepad++ - file.txt".encode_utf16().collect();
    assert_eq!(decode_utf16_prefix(&units, 9), "Notepad++");
    assert_eq!(decode_utf16_prefix(&units, 0), "");
}
