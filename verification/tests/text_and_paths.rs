use storage_cleaner::paths::{components_of, folder_chars, join_chars, same_chars};
use storage_cleaner::text::{
    chars_are, chars_of, contains_chars, contains_str, copy_chars, decimal_text, digit, push_chars,
    push_decimal, same_text, string_of, trim,
};

fn v(s: &str) -> Vec<char> {
    s.chars().collect()
}

fn comps(s: &str, sep: char) -> Vec<String> {
    components_of(&v(s), sep).into_iter().map(|c| c.into_iter().collect()).collect()
}

#[test]
fn chars_round_trip() {
    assert_eq!(chars_of("añb"), vec!['a', 'ñ', 'b']);
    assert_eq!(string_of(&['x', 'ü']), "xü");
    assert_eq!(copy_chars(&v("abc")), v("abc"));
    let mut s = String::from("ab");
    push_chars(&mut s, &['c', 'd']);
    assert_eq!(s, "abcd");
}

#[test]
fn text_equality() {
    assert!(same_text("abc", "abc"));
    assert!(!same_text("abc", "abd"));
    assert!(chars_are(&v(".."), ".."));
    assert!(!chars_are(&v("."), ".."));
    assert!(same_chars(&v("x"), &v("x")));
    assert!(!same_chars(&v("x"), &v("xy")));
}

#[test]
fn substring_search() {
    assert!(contains_chars(&v("c:\\users\\temp\\x"), &v("\\temp\\")));
    assert!(!contains_chars(&v("c:\\users\\tempo"), &v("\\temp\\")));
    assert!(contains_chars(&v("abc"), &v("")));
    assert!(contains_str(&v("hello world"), "o w"));
    assert!(!contains_str(&v("hi"), "high"));
}

#[test]
fn trimming_whitespace() {
    assert_eq!(trim("  a b \n\t"), "a b");
    assert_eq!(trim("\u{3000}x\u{2003}"), "x");
    assert_eq!(trim("   "), "");
    assert_eq!(trim(""), "");
}

#[test]
fn decimal_digits() {
    assert_eq!(decimal_text(0), "0");
    assert_eq!(decimal_text(1234567890), "1234567890");
    assert_eq!(decimal_text(u128::MAX), u128::MAX.to_string());
    assert_eq!(digit(7), '7');
    let mut s = String::from("n=");
    push_decimal(&mut s, 42);
    assert_eq!(s, "n=42");
}

#[test]
fn path_components() {
    assert_eq!(comps("C:\\Users\\a\\x.txt", '\\'), vec!["C:", "\\", "Users", "a", "x.txt"]);
    assert_eq!(comps("C:/Users//a/./x", '\\'), vec!["C:", "\\", "Users", "a", "x"]);
    assert_eq!(comps("C:", '\\'), vec!["C:"]);
    assert_eq!(comps("d:\\x", '\\'), vec!["D:", "\\", "x"]);
    assert_eq!(comps("d:\\x", '/'), vec!["d:\\x"]);
    assert_eq!(comps("/home/u/", '/'), vec!["/", "home", "u"]);
    assert_eq!(comps("./a/b", '/'), vec![".", "a", "b"]);
    assert_eq!(comps("a\\b", '/'), vec!["a\\b"]);
    assert_eq!(comps("", '/'), Vec::<String>::new());
}

#[test]
fn path_joining() {
    let j = |a: &str, b: &str, sep: char| -> String { join_chars(&v(a), &v(b), sep).into_iter().collect() };
    assert_eq!(j("C:\\", "Users", '\\'), "C:\\Users");
    assert_eq!(j("C:\\Users", "a", '\\'), "C:\\Users\\a");
    assert_eq!(j("C:", "x", '\\'), "C:x");
    assert_eq!(j("/home", "u", '/'), "/home/u");
    assert_eq!(j("", "u", '/'), "u");
    assert_eq!(j("/home/", "u", '/'), "/home/u");
}

#[test]
fn top_level_folders() {
    let f = |path: &str, drive: &str, sep: char| -> String {
        let d = v(drive);
        let parts = components_of(&d, sep);
        folder_chars(&v(path), &d, &parts, sep).into_iter().collect()
    };
    assert_eq!(f("C:\\Users\\a\\x.txt", "C:\\", '\\'), "C:\\Users");
    assert_eq!(f("C:\\x.txt", "C:\\", '\\'), "C:\\");
    assert_eq!(f("c:\\Users\\a\\x.txt", "C:\\", '\\'), "C:\\Users");
    assert_eq!(f("/data/music/a.mp3", "/data", '/'), "/data/music");
    assert_eq!(f("/other/a.mp3", "/data", '/'), "/data");
}

#[test]
fn white_space_as_std_has_it() {
    for u in 0..=0x10FFFFu32 {
        if let Some(c) = char::from_u32(u) {
            let s = format!("{}x{}", c, c);
            let expected = if c.is_whitespace() { "x".to_string() } else { s.clone() };
            assert_eq!(trim(&s), expected, "U+{:04X}", u);
        }
    }
}
