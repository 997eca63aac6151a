use std::path::{Path, PathBuf};

use wallswitch::path::{extension, file_name, join, with_extension};
use wallswitch::text::{contains, eq_ignore_ascii_case, same_text, split, trim};
use wallswitch::{bytes_to_numbers, parse_u32, parse_u64, u64_to_string, Countable};

/// A small generator of numbers, the same on every run.
struct Numbers(u64);

impl Numbers {
    fn next(&mut self) -> u64 {
        self.0 = self.0.wrapping_mul(6364136223846793005).wrapping_add(1442695040888963407);
        self.0 >> 33
    }

    fn below(&mut self, bound: usize) -> usize {
        (self.next() % bound as u64) as usize
    }

    fn text(&mut self, alphabet: &[char], longest: usize) -> String {
        let length = self.below(longest + 1);
        (0..length).map(|_| alphabet[self.below(alphabet.len())]).collect()
    }
}

#[test]
fn trim_agrees_with_std() {
    let alphabet = [' ', '\t', '\n', '\r', '\u{b}', '\u{c}', '\u{85}', '\u{a0}', '\u{1680}', '\u{2000}',
        '\u{200a}', '\u{200b}', '\u{2028}', '\u{2029}', '\u{202f}', '\u{205f}', '\u{3000}', '\u{feff}',
        'a', 'x', '1', '老'];
    let mut numbers = Numbers(1);
    for _ in 0..3000 {
        let text = numbers.text(&alphabet, 8);
        assert_eq!(trim(&text), text.trim(), "{text:?}");
    }
    for code in 0..0x3100u32 {
        if let Some(c) = char::from_u32(code) {
            let text = format!("{c}a{c}");
            assert_eq!(trim(&text), text.trim(), "{code:x}");
        }
    }
}

#[test]
fn split_agrees_with_std() {
    let alphabet = ['x', ' ', '\n', '=', 'a', '1', '虎'];
    let mut numbers = Numbers(2);
    for _ in 0..3000 {
        let text = numbers.text(&alphabet, 10);
        assert_eq!(split(&text, 'x', 'x'), text.split('x').collect::<Vec<&str>>(), "{text:?}");
        assert_eq!(
            split(&text, '\n', ' '),
            text.split(['\n', ' ']).collect::<Vec<&str>>(),
            "{text:?}"
        );
        assert_eq!(split(&text, '=', '='), text.split('=').collect::<Vec<&str>>(), "{text:?}");
    }
}

#[test]
fn contains_agrees_with_std() {
    let alphabet = ['a', 'b', 'ö'];
    let mut numbers = Numbers(3);
    for _ in 0..5000 {
        let hay = numbers.text(&alphabet, 8);
        let needle = numbers.text(&alphabet, 3);
        assert_eq!(contains(&hay, &needle), hay.contains(&needle), "{hay:?} {needle:?}");
        assert_eq!(same_text(&hay, &needle), hay == needle);
    }
}

#[test]
fn ascii_case_is_ignored_as_in_std() {
    let alphabet = ['a', 'A', 'z', 'Z', '@', '[', '`', '{', 'ä', 'Ä', 'k', '\u{212a}'];
    let mut numbers = Numbers(4);
    for _ in 0..5000 {
        let left = numbers.text(&alphabet, 3);
        let right = numbers.text(&alphabet, 3);
        assert_eq!(
            eq_ignore_ascii_case(&left, &right),
            left.eq_ignore_ascii_case(&right),
            "{left:?} {right:?}"
        );
    }
}

#[test]
fn numbers_are_read_as_in_std() {
    let alphabet = ['0', '1', '9', '+', '-', ' ', 'x', '٣'];
    let mut numbers = Numbers(5);
    for _ in 0..5000 {
        let text = numbers.text(&alphabet, 22);
        assert_eq!(parse_u64(&text).ok(), text.parse::<u64>().ok(), "{text:?}");
        assert_eq!(parse_u32(&text).ok(), text.parse::<u32>().ok(), "{text:?}");
        let message = text.parse::<u64>().err().map(|error| error.to_string());
        assert_eq!(parse_u64(&text).err().map(|error| error.to_string()), message, "{text:?}");
        let message = text.parse::<u32>().err().map(|error| error.to_string());
        assert_eq!(parse_u32(&text).err().map(|error| error.to_string()), message, "{text:?}");
    }
}

#[test]
fn numbers_are_written_as_in_std() {
    let mut numbers = Numbers(6);
    for _ in 0..2000 {
        let shift = numbers.below(64);
        let number = (numbers.next() << 31 ^ numbers.next()) >> shift;
        assert_eq!(u64_to_string(number), number.to_string());
        assert_eq!(number.count_chars(), number.to_string().chars().count());
        assert_eq!(parse_u64(&u64_to_string(number)), Ok(number));
    }
    for number in [0, 9, 10, 99, 100, u64::MAX, u64::MAX - 1, 1 << 63] {
        assert_eq!(u64_to_string(number), number.to_string());
    }
}

#[test]
fn process_numbers_are_found_as_in_lossy_text() {
    let alphabet = [b'1', b'2', b'0', b' ', b'\n', b'+', b'a', 0xff, 0xc3, 0xa4, 0xf0];
    let mut numbers = Numbers(7);
    for _ in 0..3000 {
        let length = numbers.below(12);
        let bytes: Vec<u8> = (0..length).map(|_| alphabet[numbers.below(alphabet.len())]).collect();
        let expected: Vec<u32> = String::from_utf8_lossy(&bytes)
            .split(['\n', ' '])
            .flat_map(|s| s.parse().ok())
            .collect();
        assert_eq!(bytes_to_numbers(&bytes), expected, "{bytes:?}");
    }
}

fn path_text(numbers: &mut Numbers) -> String {
    let pieces = ["/", ".", "..", "a", "b.c", ".d", "e.", "f.g.h", "//", "./", "老"];
    let count = numbers.below(6);
    (0..count).map(|_| pieces[numbers.below(pieces.len())]).collect()
}

#[test]
fn file_names_and_extensions_agree_with_std() {
    let mut numbers = Numbers(8);
    for _ in 0..5000 {
        let text = path_text(&mut numbers);
        let path = Path::new(&text);
        assert_eq!(
            file_name(&text),
            path.file_name().map(|name| name.to_string_lossy().into_owned()),
            "{text:?}"
        );
        assert_eq!(
            extension(&text),
            path.extension().map(|name| name.to_string_lossy().into_owned()),
            "{text:?}"
        );
    }
}

#[test]
fn joined_paths_agree_with_std() {
    let mut numbers = Numbers(9);
    for _ in 0..5000 {
        let base = path_text(&mut numbers);
        let name = path_text(&mut numbers);
        let mut path = PathBuf::from(&base);
        path.push(&name);
        assert_eq!(join(&base, &name), path.to_string_lossy(), "{base:?} {name:?}");
    }
}

#[test]
fn replaced_extensions_agree_with_std() {
    let extensions = ["jpg", "", "tar.gz", "j"];
    let mut numbers = Numbers(10);
    for _ in 0..5000 {
        let text = path_text(&mut numbers);
        let extension = extensions[numbers.below(extensions.len())];
        let mut path = PathBuf::from(&text);
        path.set_extension(extension);
        assert_eq!(with_extension(&text, extension), path.to_string_lossy(), "{text:?} {extension:?}");
    }
}
