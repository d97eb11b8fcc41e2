//! The single-pass scanner: drives one decode over the input, manages the
//! borrowed-or-owned output decision, and delegates escape resolution to a
//! handler.
//!
//! The specification function [`scan`] states what one decode yields: the
//! decoded characters, or the byte offset of the backslash that began an
//! invalid escape. The executable scanner is proved to return exactly that.

use crate::cursor::{
    char_utf8_len, lemma_utf8_len_prefix, lemma_utf8_len_take_succ, utf8_len, Cursor,
};
use crate::handler::EscapeHandler;
use crate::stdlib::push_char;
use crate::InvalidEscape;
use std::borrow::Cow;
use vstd::prelude::*;
use vstd::string::StringExecFns;

verus! {

broadcast use {vstd::slice::axiom_spec_len, crate::cursor::Cursor::lemma_wf_bounds};

/// True when `s` contains a backslash.
pub open spec fn has_escape(s: Seq<char>) -> bool {
    exists|i: int| 0 <= i < s.len() && s[i] == '\\'
}

/// What decoding `s` from position `i` on yields under handler `h`: the
/// decoded characters, or the byte offset of the backslash that began an
/// invalid escape.
///
/// A literal character is copied. A backslash with nothing after it fails
/// at its own byte offset. Otherwise the handler resolves the escape from
/// the trigger character and the characters after it; the scan continues
/// past whatever the handler consumed, with the replacement character, if
/// any, appended to the output.
pub open spec fn scan<H: EscapeHandler>(h: H, s: Seq<char>, i: int) -> Result<Seq<char>, int>
    decreases s.len() - i,
{
    if i < 0 || i >= s.len() {
        Ok(Seq::empty())
    } else if s[i] != '\\' {
        match scan(h, s, i + 1) {
            Ok(t) => Ok(seq![s[i]] + t),
            Err(e) => Err(e),
        }
    } else if i + 1 >= s.len() {
        Err(utf8_len(s.take(i)) as int)
    } else {
        let idx = utf8_len(s.take(i)) as int;
        let chr = s[i + 1];
        let rest = s.skip(i + 2);
        match h.outcome(idx, chr, rest) {
            Err(_) => Err(idx),
            Ok(opt) => {
                let k = if h.consumed(idx, chr, rest) <= rest.len() {
                    h.consumed(idx, chr, rest) as int
                } else {
                    rest.len() as int
                };
                match scan(h.next_state(idx, chr, rest), s, i + 2 + k) {
                    Ok(t) => Ok(
                        match opt {
                            Some(c) => seq![c] + t,
                            None => t,
                        },
                    ),
                    Err(e) => Err(e),
                }
            },
        }
    }
}

/// Over a stretch that holds no backslash, the scan copies the characters.
proof fn lemma_scan_literal_run<H: EscapeHandler>(h: H, s: Seq<char>, i: int, j: int)
    requires
        0 <= i <= j <= s.len(),
        forall|k: int| i <= k < j ==> s[k] != '\\',
    ensures
        match scan(h, s, j) {
            Ok(t) => scan(h, s, i) == Ok::<_, int>(s.subrange(i, j) + t),
            Err(e) => scan(h, s, i) == Err::<Seq<char>, _>(e),
        },
    decreases j - i,
{
    if i < j {
        lemma_scan_literal_run(h, s, i + 1, j);
        match scan(h, s, j) {
            Ok(t) => {
                assert(seq![s[i]] + (s.subrange(i + 1, j) + t) =~= s.subrange(i, j) + t);
            },
            Err(_) => {},
        }
    } else {
        match scan(h, s, j) {
            Ok(t) => {
                assert(s.subrange(i, j) + t =~= t);
            },
            Err(_) => {},
        }
    }
}

/// Text without an escape decodes to itself, whatever the handler.
pub proof fn lemma_scan_escape_free<H: EscapeHandler>(h: H, s: Seq<char>)
    requires
        !has_escape(s),
    ensures
        scan(h, s, 0) == Ok::<_, int>(s),
{
    lemma_scan_literal_run(h, s, 0, s.len() as int);
    assert(scan(h, s, s.len() as int) == Ok::<_, int>(Seq::<char>::empty()));
    assert(s.subrange(0, s.len() as int) + Seq::<char>::empty() =~= s);
}

/// The borrow path is idempotent: any two decodes of the same escape-free
/// input succeed, borrow the input, and return results with equal content,
/// whatever handlers they ran under.
pub proof fn lemma_borrow_path_idempotent<'a, 'b, H1: EscapeHandler, H2: EscapeHandler>(
    h1: H1,
    h2: H2,
    s: Seq<char>,
    r1: Result<Cow<'a, str>, InvalidEscape>,
    r2: Result<Cow<'b, str>, InvalidEscape>,
)
    requires
        !has_escape(s),
        decode_result(h1, s, r1),
        decode_result(h2, s, r2),
    ensures
        r1 matches Ok(c1) && c1 is Borrowed && c1@ == s,
        r2 matches Ok(c2) && c2 is Borrowed && c2@ == s,
{
    lemma_scan_escape_free(h1, s);
    lemma_scan_escape_free(h2, s);
}

/// What a decode returns: the decoded text of [`scan`] on success, the byte
/// offset [`scan`] reports on failure, and a result that borrows the input
/// exactly when the input holds no backslash.
pub open spec fn decode_result<'a, H: EscapeHandler>(
    h: H,
    s: Seq<char>,
    r: Result<Cow<'a, str>, InvalidEscape>,
) -> bool {
    match r {
        Ok(out) => scan(h, s, 0) == Ok::<_, int>(out@) && (out is Borrowed <==> !has_escape(s)) && (
        out matches Cow::Borrowed(b) ==> b@ == s),
        Err(e) => scan(h, s, 0) == Err::<Seq<char>, _>(e.index as int),
    }
}

/// Unescapes `this` under `callback`, borrowing the input when it holds no
/// escape and allocating one owned buffer otherwise.
pub fn to_unescaped_with_mono<'a, H: EscapeHandler>(this: &'a str, callback: &mut H) -> (r: Result<
    Cow<'a, str>,
    InvalidEscape,
>)
    ensures
        decode_result(*old(callback), this@, r),
        !has_escape(this@) ==> (r matches Ok(out) && out is Borrowed),
{
    let ghost s = this@;
    let n = this.unicode_len();
    let total = this.as_bytes().len();
    proof {
        assert(total == utf8_len(s));
    }
    let mut i: usize = 0;
    let mut byte_pos: usize = 0;

    while i < n && this.get_char(i) != '\\'
        invariant
            s == this@,
            n == s.len(),
            total == utf8_len(s),
            0 <= i <= n,
            forall|k: int| 0 <= k < i ==> s[k] != '\\',
            byte_pos == utf8_len(s.take(i as int)),
        decreases n - i,
    {
        let c = this.get_char(i);
        proof {
            lemma_utf8_len_take_succ(s, i as int);
            lemma_utf8_len_prefix(s, i as int + 1);
        }
        let w = char_utf8_len(c);
        byte_pos = byte_pos + w;
        i = i + 1;
    }

    if i == n {
        proof {
            lemma_scan_escape_free(*callback, s);
        }
        return Ok(Cow::Borrowed(this));
    }
    proof {
        assert(s[i as int] == '\\');
        assert(has_escape(s));
    }

    let pre = this.substring_char(0, i);
    let mut buf = String::from_str(pre);
    proof {
        lemma_scan_literal_run(*callback, s, 0, i as int);
    }

    while i < n
        invariant
            s == this@,
            n == s.len(),
            total == utf8_len(s),
            0 <= i <= n,
            byte_pos == utf8_len(s.take(i as int)),
            has_escape(s),
            match scan(*callback, s, i as int) {
                Ok(t) => scan(*old(callback), s, 0) == Ok::<_, int>(buf@ + t),
                Err(e) => scan(*old(callback), s, 0) == Err::<Seq<char>, _>(e),
            },
        decreases n - i,
    {
        let c = this.get_char(i);
        if c != '\\' {
            proof {
                lemma_scan_literal_run(*callback, s, i as int, i as int + 1);
                lemma_utf8_len_take_succ(s, i as int);
                lemma_utf8_len_prefix(s, i as int + 1);
                assert(s.subrange(i as int, i as int + 1) =~= seq![s[i as int]]);
                if let Ok(t) = scan(*callback, s, i as int + 1) {
                    assert((buf@ + seq![s[i as int]]) + t =~= buf@ + (seq![s[i as int]] + t));
                    assert(buf@.push(c) =~= buf@ + seq![s[i as int]]);
                }
            }
            push_char(&mut buf, c);
            let w = char_utf8_len(c);
            byte_pos = byte_pos + w;
            i = i + 1;
        } else {
            if i + 1 >= n {
                return Err(InvalidEscape::new(byte_pos));
            }
            let chr = this.get_char(i + 1);
            proof {
                lemma_utf8_len_take_succ(s, i as int);
                lemma_utf8_len_take_succ(s, i as int + 1);
                lemma_utf8_len_prefix(s, i as int + 2);
            }
            let w_chr = char_utf8_len(chr);
            let cur_byte = byte_pos + 1 + w_chr;
            let mut cursor = Cursor::at_position(this, i + 2, cur_byte);
            let ghost rest = cursor.remaining();
            let ghost cb = *callback;
            let res = callback.escape(byte_pos, chr, &mut cursor);
            proof {
                assert(rest =~= s.skip(i as int + 2));
            }
            match res {
                Err(()) => {
                    return Err(InvalidEscape::new(byte_pos));
                },
                Ok(opt) => {
                    proof {
                        let idx = byte_pos as int;
                        let k = cb.consumed(idx, chr, rest) as int;
                        assert(cursor.position() == i + 2 + k);
                        assert(k <= rest.len());
                        if let Ok(t) = scan(*callback, s, i as int + 2 + k) {
                            if let Some(c2) = opt {
                                assert((buf@ + seq![c2]) + t =~= buf@ + (seq![c2] + t));
                                assert(buf@.push(c2) =~= buf@ + seq![c2]);
                            }
                        }
                    }
                    if let Some(c2) = opt {
                        push_char(&mut buf, c2);
                    }
                    i = cursor.char_position();
                    byte_pos = cursor.byte_position();
                },
            }
        }
    }

    proof {
        assert(scan(*callback, s, n as int) == Ok::<_, int>(Seq::<char>::empty()));
        assert(buf@ + Seq::<char>::empty() =~= buf@);
    }
    Ok(Cow::Owned(buf))
}

} // verus!
