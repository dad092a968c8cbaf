use spectrum_tools::keyfile::{format_value, parse, trimmed, DecodeError, Group, KeyFile};
use spectrum_tools::metadata::{extract_runtime, MetadataError};

fn value<'a>(file: &'a KeyFile, group: &str, key: &str) -> Option<&'a str> {
    file.get(group.as_bytes(), key.as_bytes()).map(|v| std::str::from_utf8(v).unwrap())
}

#[test]
fn groups_and_keys() {
    let file = parse("[Application]\nname=org.gnome.TextEditor\nruntime=org.gnome.Platform/x86_64/49\n\n[Context]\nshared=ipc;\n").unwrap();
    assert_eq!(value(&file, "Application", "name"), Some("org.gnome.TextEditor"));
    assert_eq!(value(&file, "Application", "runtime"), Some("org.gnome.Platform/x86_64/49"));
    assert_eq!(value(&file, "Context", "shared"), Some("ipc;"));
    assert_eq!(value(&file, "Context", "name"), None);
    assert_eq!(value(&file, "Missing", "name"), None);
    assert!(file.contains_group(b"Application"));
    assert!(file.contains_group(b"Context"));
    assert!(!file.contains_group(b"application"));
}

#[test]
fn empty_text_has_no_groups() {
    let file = parse("").unwrap();
    assert!(!file.contains_group(b""));
    let blank = parse("\n\n   \n\t\n").unwrap();
    assert!(!blank.contains_group(b""));
}

#[test]
fn a_group_without_keys_is_there() {
    let file = parse("[Empty]").unwrap();
    assert!(file.contains_group(b"Empty"));
    assert_eq!(value(&file, "Empty", "x"), None);
}

#[test]
fn comments_and_blank_lines_say_nothing() {
    let file = parse("# a comment\n[G]\n#k=v\n\n  \u{a0}\u{2003}\nk=v\n").unwrap();
    assert_eq!(value(&file, "G", "k"), Some("v"));
    assert_eq!(value(&file, "G", "#k"), None);
}

#[test]
fn a_comment_must_begin_the_line() {
    let file = parse("[G]\n #k=v\n").unwrap();
    assert_eq!(value(&file, "G", "#k"), Some("v"));
}

#[test]
fn lines_without_an_equals_sign_say_nothing() {
    let file = parse("[G]\njust some words\nk=v\n").unwrap();
    assert_eq!(value(&file, "G", "k"), Some("v"));
    assert_eq!(value(&file, "G", "just some words"), None);
}

#[test]
fn keys_are_trimmed() {
    let file = parse("[G]\n  key \t= value\n").unwrap();
    assert_eq!(value(&file, "G", "key"), Some("value"));
    let wide = parse("[G]\n\u{3000}key\u{2009}=v\n").unwrap();
    assert_eq!(value(&wide, "G", "key"), Some("v"));
}

#[test]
fn only_one_space_is_taken_off_a_value() {
    let file = parse("[G]\na=  two\nb=none\nc= one \nd=\ne= \n").unwrap();
    assert_eq!(value(&file, "G", "a"), Some(" two"));
    assert_eq!(value(&file, "G", "b"), Some("none"));
    assert_eq!(value(&file, "G", "c"), Some("one "));
    assert_eq!(value(&file, "G", "d"), Some(""));
    assert_eq!(value(&file, "G", "e"), Some(""));
}

#[test]
fn the_first_equals_sign_ends_the_key() {
    let file = parse("[G]\nk=a=b=c\n").unwrap();
    assert_eq!(value(&file, "G", "k"), Some("a=b=c"));
}

#[test]
fn the_last_bracket_ends_the_group_name() {
    let file = parse("[a]b]c\nk=v\n").unwrap();
    assert_eq!(value(&file, "a]b", "k"), Some("v"));
    let empty = parse("[]\nk=v\n").unwrap();
    assert_eq!(value(&empty, "", "k"), Some("v"));
}

#[test]
fn a_header_without_a_closing_bracket_says_nothing() {
    let file = parse("[G]\n[broken=1\nk=v\n").unwrap();
    assert_eq!(value(&file, "G", "k"), Some("v"));
    assert_eq!(value(&file, "G", "[broken"), None);
    assert!(!file.contains_group(b"broken=1"));
}

#[test]
fn a_later_value_overrules_an_earlier_one() {
    let file = parse("[G]\nk=1\nk=2\n").unwrap();
    assert_eq!(value(&file, "G", "k"), Some("2"));
}

#[test]
fn groups_of_one_name_are_merged() {
    let file = parse("[G]\na=1\nb=2\n[H]\nx=y\n[G]\nb=3\nc=4\n").unwrap();
    assert_eq!(value(&file, "G", "a"), Some("1"));
    assert_eq!(value(&file, "G", "b"), Some("3"));
    assert_eq!(value(&file, "G", "c"), Some("4"));
    assert_eq!(value(&file, "H", "x"), Some("y"));
}

#[test]
fn carriage_returns_before_newlines_are_taken_off() {
    let file = parse("[G]\r\nk=v\r\nlast=w\r").unwrap();
    assert_eq!(value(&file, "G", "k"), Some("v"));
    assert_eq!(value(&file, "G", "last"), Some("w\r"));
    let inner = parse("[G]\nk=a\rb\r\r\n").unwrap();
    assert_eq!(value(&inner, "G", "k"), Some("a\rb\r"));
}

#[test]
fn the_last_line_needs_no_newline() {
    let file = parse("[G]\nk=v").unwrap();
    assert_eq!(value(&file, "G", "k"), Some("v"));
}

#[test]
fn escapes_are_resolved() {
    let file = parse("[G]\nk=a\\sb\\nc\\td\\re\\\\f\n").unwrap();
    assert_eq!(value(&file, "G", "k"), Some("a b\nc\td\re\\f"));
    assert_eq!(format_value(b"\\\\s"), Ok(b"\\s".to_vec()));
    assert_eq!(format_value(b"\\\\\\\\"), Ok(b"\\\\".to_vec()));
    assert_eq!(format_value(b" \\s"), Ok(b" ".to_vec()));
    assert_eq!(format_value(b""), Ok(vec![]));
    assert_eq!(format_value("höhe".as_bytes()), Ok("höhe".as_bytes().to_vec()));
}

#[test]
fn a_wrong_escape_is_an_invalid_value() {
    assert_eq!(format_value(b"a\\xb"), Err(DecodeError::InvalidValue));
    assert_eq!(format_value(b"a\\"), Err(DecodeError::InvalidValue));
    assert_eq!(format_value(b"\\\\\\"), Err(DecodeError::InvalidValue));
    assert_eq!(format_value(b"\\S"), Err(DecodeError::InvalidValue));
    assert_eq!(parse("[G]\nk=a\\qb\n").err(), Some(DecodeError::InvalidValue));
    assert_eq!(parse("[G]\nk=a\\").err(), Some(DecodeError::InvalidValue));
}

#[test]
fn an_empty_key_is_an_invalid_key() {
    assert_eq!(parse("[G]\n=v\n").err(), Some(DecodeError::InvalidKey));
    assert_eq!(parse("=v").err(), Some(DecodeError::InvalidKey));
    assert_eq!(parse("[G]\n=\\q\n").err(), Some(DecodeError::InvalidValue));
}

#[test]
fn a_key_of_white_space_is_the_empty_key() {
    let file = parse("[G]\nx=1\n\tx=2\n").unwrap();
    assert_eq!(value(&file, "G", "x"), Some("2"));
    let odd = parse("[G]\nk=v\n \u{a0}=w\n").unwrap();
    assert_eq!(value(&odd, "G", "k"), Some("v"));
}

#[test]
fn a_key_before_any_group_is_an_error() {
    assert_eq!(parse("k=v\n").err(), Some(DecodeError::KeyValueWithoutAGroup));
    assert_eq!(parse("k=v\n[G]\n").err(), Some(DecodeError::KeyValueWithoutAGroup));
    assert_eq!(parse("k=v\nl=w\n[G]\n").err(), Some(DecodeError::KeyValueWithoutAGroup));
    assert_eq!(parse("# c\nk=v").err(), Some(DecodeError::KeyValueWithoutAGroup));
}

#[test]
fn decode_errors_in_words() {
    assert_eq!(DecodeError::KeyValueWithoutAGroup.to_string(), "key/value without a group");
    assert_eq!(DecodeError::InvalidKey.to_string(), "invalid key");
    assert_eq!(DecodeError::InvalidValue.to_string(), "invalid value");
}

#[test]
fn trimming_takes_unicode_white_space_off() {
    assert_eq!(trimmed(b"  a b \t\r\n"), b"a b");
    assert_eq!(trimmed(b""), b"");
    assert_eq!(trimmed(b" \n "), b"");
    assert_eq!(trimmed(b"x"), b"x");
    let all = "\u{9}\u{a}\u{b}\u{c}\u{d}\u{20}\u{85}\u{a0}\u{1680}\u{2000}\u{2001}\u{2002}\u{2003}\u{2004}\u{2005}\u{2006}\u{2007}\u{2008}\u{2009}\u{200a}\u{2028}\u{2029}\u{202f}\u{205f}\u{3000}";
    let text = format!("{all}word{all}");
    assert_eq!(trimmed(text.as_bytes()), b"word");
    for s in ["\u{200b}x\u{200b}", "\u{feff}x", "\u{1}x\u{7f}", "\u{180e}x", "é ", "\u{2060}"] {
        assert_eq!(trimmed(s.as_bytes()), s.trim().as_bytes());
    }
}

#[test]
fn groups_can_be_built_by_hand() {
    let mut g = Group::new();
    assert_eq!(g.get(b"k"), None);
    g.insert(b"k".to_vec(), b"1".to_vec());
    g.insert(b"l".to_vec(), b"2".to_vec());
    g.insert(b"k".to_vec(), b"3".to_vec());
    assert_eq!(g.get(b"k"), Some(&b"3"[..]));
    assert_eq!(g.get(b"l"), Some(&b"2"[..]));
    let mut h = Group::new();
    h.insert(b"l".to_vec(), b"4".to_vec());
    h.insert(b"m".to_vec(), b"5".to_vec());
    g.append(h);
    assert_eq!(g.get(b"k"), Some(&b"3"[..]));
    assert_eq!(g.get(b"l"), Some(&b"4"[..]));
    assert_eq!(g.get(b"m"), Some(&b"5"[..]));
    let mut file = KeyFile::new();
    assert!(!file.contains_group(b"G"));
    file.merge(b"G".to_vec(), g);
    let mut again = Group::new();
    again.insert(b"m".to_vec(), b"6".to_vec());
    file.merge(b"G".to_vec(), again);
    file.merge(b"H".to_vec(), Group::new());
    assert_eq!(file.get(b"G", b"k"), Some(&b"3"[..]));
    assert_eq!(file.get(b"G", b"m"), Some(&b"6"[..]));
    assert_eq!(file.get(b"H", b"m"), None);
    assert!(file.contains_group(b"H"));
}

#[test]
fn runtime_is_read_from_the_application_group() {
    let text = "[Application]\nname=org.gnome.TextEditor\nruntime=org.gnome.Platform/x86_64/49\nsdk=org.gnome.Sdk/x86_64/49\n";
    assert_eq!(extract_runtime(text), Ok(b"org.gnome.Platform/x86_64/49".to_vec()));
}

#[test]
fn runtime_needs_the_application_group() {
    assert_eq!(extract_runtime("[Runtime]\nruntime=x\n"), Err(MetadataError::ApplicationGroupMissing));
    assert_eq!(extract_runtime(""), Err(MetadataError::ApplicationGroupMissing));
}

#[test]
fn runtime_needs_the_runtime_property() {
    assert_eq!(extract_runtime("[Application]\nname=x\n"), Err(MetadataError::RuntimePropertyMissing));
    assert_eq!(extract_runtime("[Application]"), Err(MetadataError::RuntimePropertyMissing));
}

#[test]
fn runtime_of_a_broken_file_is_a_decode_error() {
    assert_eq!(extract_runtime("runtime=x\n"), Err(MetadataError::Decode(DecodeError::KeyValueWithoutAGroup)));
    assert_eq!(
        extract_runtime("[Application]\nruntime=\\x\n"),
        Err(MetadataError::Decode(DecodeError::InvalidValue))
    );
}

#[test]
fn metadata_errors_in_words() {
    assert_eq!(MetadataError::ApplicationGroupMissing.to_string(), "Application group missing");
    assert_eq!(MetadataError::RuntimePropertyMissing.to_string(), "runtime property missing");
    assert_eq!(MetadataError::Decode(DecodeError::InvalidKey).to_string(), "invalid key");
}
