use descape::{unescape_hex, unescape_oct, unescape_unicode};
use descape::{Cursor, DefaultHandler, EscapeHandler, InvalidEscape, UnescapeExt};
use std::borrow::Cow;

#[test]
fn borrow_path_no_escape() {
    let input = "plain text, no backslash at all";
    let out = input.to_unescaped().expect("escape-free input must decode");
    assert!(matches!(out, Cow::Borrowed(_)));
    assert_eq!(out, Cow::Borrowed(input));
}

#[test]
fn borrow_path_empty() {
    let out = "".to_unescaped().expect("empty input must decode");
    assert!(matches!(out, Cow::Borrowed(b) if b.is_empty()));
}

#[test]
fn borrow_path_idempotent() {
    let input = "still no escapes ❤️";
    let first = input.to_unescaped().expect("escape-free input must decode");
    let second = input.to_unescaped().expect("escape-free input must decode");
    assert_eq!(first, second);
    assert!(matches!(first, Cow::Borrowed(b) if b == input));
    assert!(matches!(second, Cow::Borrowed(b) if b == input));
}

#[test]
fn simple_escapes() {
    assert_eq!(r"\n".to_unescaped().unwrap(), "\n");
    assert_eq!(r"\t".to_unescaped().unwrap(), "\t");
    assert_eq!(r"\\".to_unescaped().unwrap(), "\\");
    assert_eq!(r"\'".to_unescaped().unwrap(), "'");
    assert_eq!(r"\a\b\v\f\r\e".to_unescaped().unwrap(), "\x07\x08\x0B\x0C\x0D\x1B");
    assert_eq!(r#"\""#.to_unescaped().unwrap(), "\"");
    assert_eq!(r"\`".to_unescaped().unwrap(), "`");
}

#[test]
fn hex_and_unicode_escapes() {
    assert_eq!(r"\x41".to_unescaped().unwrap(), "A");
    assert_eq!(r"\u{41}".to_unescaped().unwrap(), "A");
    assert_eq!(r"\u0041".to_unescaped().unwrap(), "A");
    assert_eq!(r"\u{1F600}".to_unescaped().unwrap(), "\u{1F600}");
    assert_eq!(r"\u{0000000041}".to_unescaped().unwrap(), "A");
    assert_eq!(r"\xFF".to_unescaped().unwrap(), "\u{FF}");
}

#[test]
fn octal_escapes() {
    assert_eq!(r"\101".to_unescaped().unwrap(), "A");
    assert_eq!(r"\0".to_unescaped().unwrap(), "\u{0}");
    assert_eq!(r"\11".to_unescaped().unwrap(), "\t");
    // the run stops at the first non-octal character: nothing extra is
    // consumed after the two digits
    assert_eq!(r"\118".to_unescaped().unwrap(), "\t8");
    assert_eq!(r"\7777".to_unescaped().unwrap(), "\u{1FF}7");
}

#[test]
fn error_offsets() {
    assert_eq!(r"\z".to_unescaped(), Err(InvalidEscape::new(0)));
    assert_eq!(r"\".to_unescaped(), Err(InvalidEscape::new(0)));
    assert_eq!(r"\xFG".to_unescaped(), Err(InvalidEscape::new(0)));
    assert_eq!(r"\u{}".to_unescaped(), Err(InvalidEscape::new(0)));
    assert_eq!(r"\u{D800}".to_unescaped(), Err(InvalidEscape::new(0)));
    assert_eq!(r"\u{110000}".to_unescaped(), Err(InvalidEscape::new(0)));
    assert_eq!(r"\u{FFFFFFFFFFFF}".to_unescaped(), Err(InvalidEscape::new(0)));
    // the reported index is the byte offset of the backslash
    assert_eq!(r"Uh oh! \xJJ".to_unescaped(), Err(InvalidEscape::new(7)));
    assert_eq!("❤\\z".to_unescaped(), Err(InvalidEscape::new(3)));
    assert_eq!(r"ok \n then \".to_unescaped(), Err(InvalidEscape::new(11)));
}

struct DeleteAll;

impl EscapeHandler for DeleteAll {
    fn escape(
        &mut self,
        _idx: usize,
        _chr: char,
        _cursor: &mut Cursor<'_>,
    ) -> Result<Option<char>, ()> {
        Ok(None)
    }
}

struct FailAll;

impl EscapeHandler for FailAll {
    fn escape(
        &mut self,
        _idx: usize,
        _chr: char,
        _cursor: &mut Cursor<'_>,
    ) -> Result<Option<char>, ()> {
        Err(())
    }
}

struct NoQuotes;

impl EscapeHandler for NoQuotes {
    fn escape(
        &mut self,
        idx: usize,
        chr: char,
        cursor: &mut Cursor<'_>,
    ) -> Result<Option<char>, ()> {
        match chr {
            '\'' | '"' | '`' => Err(()),
            _ => DefaultHandler.escape(idx, chr, cursor),
        }
    }
}

#[test]
fn fallback_to_default_handler() {
    assert_eq!(r"a\nb".to_unescaped_with(NoQuotes).unwrap(), "a\nb");
    assert_eq!(r"a\'b".to_unescaped_with(NoQuotes), Err(InvalidEscape::new(1)));
}

#[test]
fn delete_handler() {
    assert_eq!(r"a\bc".to_unescaped_with(DeleteAll).unwrap(), "ac");
}

#[test]
fn failing_handler() {
    assert_eq!(r"ab\cd".to_unescaped_with(FailAll), Err(InvalidEscape::new(2)));
}

#[test]
fn error_message() {
    assert_eq!(
        InvalidEscape::new(7).message(),
        "invalid escape sequence at index 7"
    );
    assert_eq!(
        InvalidEscape::new(0).message(),
        "invalid escape sequence at index 0"
    );
    assert_eq!(
        InvalidEscape::new(1234567890).message(),
        "invalid escape sequence at index 1234567890"
    );
}

#[test]
fn error_new_carries_index() {
    assert_eq!(InvalidEscape::new(5).index, 5);
}

#[test]
fn hex_decoder_consumes_two() {
    let mut cursor = Cursor::new("41x");
    assert_eq!(unescape_hex(&mut cursor), Some('A'));
    assert_eq!(cursor.next(), Some('x'));
    assert_eq!(cursor.next(), None);

    let mut short = Cursor::new("4");
    assert_eq!(unescape_hex(&mut short), None);
}

#[test]
fn unicode_decoder_consumes_form() {
    let mut braced = Cursor::new("{1F600}!");
    assert_eq!(unescape_unicode(&mut braced), Some('\u{1F600}'));
    assert_eq!(braced.next(), Some('!'));

    let mut bare = Cursor::new("00419");
    assert_eq!(unescape_unicode(&mut bare), Some('A'));
    assert_eq!(bare.next(), Some('9'));

    let mut unclosed = Cursor::new("{03");
    assert_eq!(unescape_unicode(&mut unclosed), None);
}

#[test]
fn oct_decoder_stops_at_non_octal() {
    let mut cursor = Cursor::new("1y");
    assert_eq!(unescape_oct('1', &mut cursor), '\t');
    assert_eq!(cursor.next(), Some('y'));

    let mut empty = Cursor::new("");
    assert_eq!(unescape_oct('7', &mut empty), '\x07');
}

#[test]
fn cursor_suffix_view() {
    let mut cursor = Cursor::new("a❤b");
    assert_eq!(cursor.as_str(), "a❤b");
    assert_eq!(cursor.next(), Some('a'));
    assert_eq!(cursor.next(), Some('❤'));
    assert_eq!(cursor.as_str(), "b");
    assert_eq!(cursor.byte_position(), 4);
    assert_eq!(cursor.char_position(), 2);
    assert_eq!(cursor.peek(), Some('b'));
}
