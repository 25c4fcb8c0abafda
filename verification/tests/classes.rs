use regex::Regex;

const WHITE_SPACE: [(u32, u32); 10] = [
    (0x9, 0xd), (0x20, 0x20), (0x85, 0x85), (0xa0, 0xa0),
    (0x1680, 0x1680), (0x2000, 0x200a), (0x2028, 0x2029), (0x202f, 0x202f),
    (0x205f, 0x205f), (0x3000, 0x3000),
];

const DECIMAL_DIGITS: [(u32, u32); 71] = [
    (0x30, 0x39), (0x660, 0x669), (0x6f0, 0x6f9), (0x7c0, 0x7c9),
    (0x966, 0x96f), (0x9e6, 0x9ef), (0xa66, 0xa6f), (0xae6, 0xaef),
    (0xb66, 0xb6f), (0xbe6, 0xbef), (0xc66, 0xc6f), (0xce6, 0xcef),
    (0xd66, 0xd6f), (0xde6, 0xdef), (0xe50, 0xe59), (0xed0, 0xed9),
    (0xf20, 0xf29), (0x1040, 0x1049), (0x1090, 0x1099), (0x17e0, 0x17e9),
    (0x1810, 0x1819), (0x1946, 0x194f), (0x19d0, 0x19d9), (0x1a80, 0x1a89),
    (0x1a90, 0x1a99), (0x1b50, 0x1b59), (0x1bb0, 0x1bb9), (0x1c40, 0x1c49),
    (0x1c50, 0x1c59), (0xa620, 0xa629), (0xa8d0, 0xa8d9), (0xa900, 0xa909),
    (0xa9d0, 0xa9d9), (0xa9f0, 0xa9f9), (0xaa50, 0xaa59), (0xabf0, 0xabf9),
    (0xff10, 0xff19), (0x104a0, 0x104a9), (0x10d30, 0x10d39), (0x10d40, 0x10d49),
    (0x11066, 0x1106f), (0x110f0, 0x110f9), (0x11136, 0x1113f), (0x111d0, 0x111d9),
    (0x112f0, 0x112f9), (0x11450, 0x11459), (0x114d0, 0x114d9), (0x11650, 0x11659),
    (0x116c0, 0x116c9), (0x116d0, 0x116e3), (0x11730, 0x11739), (0x118e0, 0x118e9),
    (0x11950, 0x11959), (0x11bf0, 0x11bf9), (0x11c50, 0x11c59), (0x11d50, 0x11d59),
    (0x11da0, 0x11da9), (0x11f50, 0x11f59), (0x16130, 0x16139), (0x16a60, 0x16a69),
    (0x16ac0, 0x16ac9), (0x16b50, 0x16b59), (0x16d70, 0x16d79), (0x1ccf0, 0x1ccf9),
    (0x1d7ce, 0x1d7ff), (0x1e140, 0x1e149), (0x1e2f0, 0x1e2f9), (0x1e4f0, 0x1e4f9),
    (0x1e5f1, 0x1e5fa), (0x1e950, 0x1e959), (0x1fbf0, 0x1fbf9),
];

fn listed(ranges: &[(u32, u32)], c: char) -> bool {
    ranges.iter().any(|&(low, high)| low <= c as u32 && c as u32 <= high)
}

fn class_is(pattern: &str, ranges: &[(u32, u32)]) -> usize {
    let class = Regex::new(pattern).unwrap();
    let mut members = 0;
    let mut text = String::new();
    for code in 0..=0x10ffffu32 {
        if let Some(c) = char::from_u32(code) {
            text.clear();
            text.push(c);
            assert_eq!(class.is_match(&text), listed(ranges, c), "U+{:04X}", code);
            if listed(ranges, c) {
                members += 1;
            }
        }
    }
    members
}

#[test]
fn white_space_is_as_listed() {
    assert_eq!(class_is(r"^\s$", &WHITE_SPACE), 25);
}

#[test]
fn decimal_digits_are_as_listed() {
    assert_eq!(class_is(r"^\d$", &DECIMAL_DIGITS), 760);
}

#[test]
fn brackets_are_the_only_characters_kept_out() {
    let class = Regex::new(r"^[^\[\]]$").unwrap();
    let mut text = String::new();
    for code in 0..=0x10ffffu32 {
        if let Some(c) = char::from_u32(code) {
            text.clear();
            text.push(c);
            assert_eq!(class.is_match(&text), c != '[' && c != ']', "U+{:04X}", code);
        }
    }
}
