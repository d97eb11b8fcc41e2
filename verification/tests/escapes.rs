use descape::{Cursor, EscapeHandler, InvalidEscape, UnescapeExt};
use std::borrow::Cow;

#[test]
fn test_escapes() {
    let escaped: &str =
        r#"\a \b \t \n \v❤️\f \r \e \' \" \` \\ \u{0} \u{21}❤️\u{433} \u{FFFD} \u0000 \u0021 \uFFFD \x7E \xFF \0 \11 \100"#;
    let unescaped: &str =
        "\x07 \x08 \t \n \x0B❤️\x0C \x0D \x1B \' \" ` \\ \u{0} \u{21}❤️\u{433} \u{FFFD} \u{0000} \u{0021} \u{FFFD} \x7E \u{FF} \0 \t @";
    let no_escapes: &str = "No escapes here!";
    let bad_escape: &str = r"\Z";
    let cut_escape: &str = r"\";
    let bad_unicode: &str = r"\u{This is definitely not hexadecimal}";
    let empty_unicode: &str = r"\u{}";
    let cut_unicode: &str = r"\u{03";
    let bad_hex: &str = r"\xGG";
    let cut_hex: &str = r"\xA";
    let empty_hex: &str = r"\x";
    let non_unicode: &str = r"\u{D800}";

    assert_eq!(
        escaped
            .to_unescaped()
            .expect("should not reject legal escaped string"),
        Cow::Owned::<'_, str>(unescaped.to_string())
    );

    assert_eq!(
        no_escapes
            .to_unescaped()
            .expect("should not reject legal escaped string"),
        Cow::Borrowed(no_escapes)
    );

    assert_eq!(
        bad_escape.to_unescaped(),
        Err(InvalidEscape::new(0)),
        "bad_escape parsed successfully when invalid"
    );
    assert_eq!(
        cut_escape.to_unescaped(),
        Err(InvalidEscape::new(0)),
        "cut_escape parsed successfully when invalid"
    );
    assert_eq!(
        bad_unicode.to_unescaped(),
        Err(InvalidEscape::new(0)),
        "bad_unicode parsed successfully when invalid"
    );
    assert_eq!(
        empty_unicode.to_unescaped(),
        Err(InvalidEscape::new(0)),
        "empty_unicode parsed successfully when invalid"
    );
    assert_eq!(
        cut_unicode.to_unescaped(),
        Err(InvalidEscape::new(0)),
        "cut_unicode parsed successfully when invalid"
    );
    assert_eq!(
        bad_hex.to_unescaped(),
        Err(InvalidEscape::new(0)),
        "bad_hex parsed successfully when invalid"
    );
    assert_eq!(
        cut_hex.to_unescaped(),
        Err(InvalidEscape::new(0)),
        "cut_hex parsed successfully when invalid"
    );
    assert_eq!(
        empty_hex.to_unescaped(),
        Err(InvalidEscape::new(0)),
        "empty_hex parsed successfully when invalid"
    );
    assert_eq!(
        non_unicode.to_unescaped(),
        Err(InvalidEscape::new(0)),
        "non_unicode parsed successfully when invalid"
    );
}

struct CustomEsc;

impl EscapeHandler for CustomEsc {
    fn escape(
        &mut self,
        _idx: usize,
        chr: char,
        cursor: &mut Cursor<'_>,
    ) -> Result<Option<char>, ()> {
        if chr == 'T' {
            let next = cursor.next().ok_or(())?;
            return Ok(Some(match next {
                'a' => 'g',
                'o' => 'p',
                _ => Err(())?,
            }));
        }
        Ok(None)
    }
}

#[test]
fn test_customs() {
    r"Hello \T world"
        .to_unescaped_with(CustomEsc)
        .expect_err(r"custom escape should fail for \T");
    r"Foo \Tg bar"
        .to_unescaped_with(CustomEsc)
        .expect_err(r"custom escape should fail for \Tg");
    assert_eq!(
        r"Spam E\Tags"
            .to_unescaped_with(CustomEsc)
            .expect(r"custom escape should succeed for \Ta"),
        Cow::<'static, str>::Owned(String::from("Spam Eggs")),
        "custom escape gave incorrect result"
    );
    assert_eq!(
        r"Bee\To \n Boop"
            .to_unescaped_with(CustomEsc)
            .expect(r"custom escape should succeed for \To"),
        Cow::<'static, str>::Owned(String::from("Beep  Boop")),
        "custom escape gave incorrect result"
    );
}
