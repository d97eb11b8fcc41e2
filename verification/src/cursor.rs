//! A position-tracking view over the remaining characters of a string,
//! handed to escape handlers for the duration of one escape resolution.
//!
//! The cursor walks the text character by character while keeping the byte
//! offset of its position, so that errors can be reported as byte indices
//! into the original string.

use vstd::prelude::*;
use vstd::utf8::{char_is_scalar, encode_scalar, encode_utf8};

verus! {

broadcast use vstd::slice::axiom_spec_len;

/// The length in bytes of the UTF-8 encoding of `s`.
pub open spec fn utf8_len(s: Seq<char>) -> nat {
    encode_utf8(s).len()
}

/// UTF-8 encoding distributes over concatenation.
pub proof fn lemma_encode_utf8_concat(a: Seq<char>, b: Seq<char>)
    ensures
        encode_utf8(a + b) == encode_utf8(a) + encode_utf8(b),
    decreases a.len(),
{
    if a.len() == 0 {
        assert(a + b =~= b);
        assert(encode_utf8(a) + encode_utf8(b) =~= encode_utf8(b));
    } else {
        assert((a + b).drop_first() =~= a.drop_first() + b);
        assert((a + b)[0] == a[0]);
        lemma_encode_utf8_concat(a.drop_first(), b);
        assert(encode_scalar(a[0] as u32) + (encode_utf8(a.drop_first()) + encode_utf8(b)) =~= (
        encode_scalar(a[0] as u32) + encode_utf8(a.drop_first())) + encode_utf8(b));
    }
}

/// Extending a prefix by one character adds that character's encoded width.
pub proof fn lemma_utf8_len_take_succ(s: Seq<char>, i: int)
    requires
        0 <= i < s.len(),
    ensures
        utf8_len(s.take(i + 1)) == utf8_len(s.take(i)) + encode_scalar(s[i] as u32).len(),
{
    assert(s.take(i + 1) =~= s.take(i) + seq![s[i]]);
    lemma_encode_utf8_concat(s.take(i), seq![s[i]]);
    let single = seq![s[i]];
    assert(single.len() == 1 && single[0] == s[i]);
    assert(single.drop_first() =~= Seq::<char>::empty());
    assert(encode_utf8(Seq::<char>::empty()) =~= Seq::<u8>::empty());
    assert(encode_utf8(single) =~= encode_scalar(s[i] as u32) + encode_utf8(single.drop_first()));
    assert(encode_scalar(s[i] as u32) + Seq::<u8>::empty() =~= encode_scalar(s[i] as u32));
}

/// A prefix never encodes to more bytes than the whole sequence.
pub proof fn lemma_utf8_len_prefix(s: Seq<char>, i: int)
    requires
        0 <= i <= s.len(),
    ensures
        utf8_len(s.take(i)) <= utf8_len(s),
{
    assert(s =~= s.take(i) + s.skip(i));
    lemma_encode_utf8_concat(s.take(i), s.skip(i));
}

/// The number of bytes in the UTF-8 encoding of one character.
pub fn char_utf8_len(c: char) -> (r: usize)
    ensures
        r == encode_scalar(c as u32).len(),
        1 <= r <= 4,
{
    proof {
        char_is_scalar(c);
    }
    let v = c as u32;
    if v < 0x80 {
        1
    } else if v < 0x800 {
        2
    } else if v < 0x10000 {
        3
    } else {
        4
    }
}

/// A position-tracking view over the remaining characters of a string.
///
/// Supports single-character advance, one-character lookahead, and peeking
/// the raw remaining suffix. Positions are counted in characters; the byte
/// offset of the current position is tracked alongside.
pub struct Cursor<'a> {
    text: &'a str,
    pos: usize,
    byte_pos: usize,
}

impl<'a> Cursor<'a> {
    /// The full character sequence under the cursor.
    pub closed spec fn chars(&self) -> Seq<char> {
        self.text@
    }

    /// The current position, as a character index into the text.
    pub closed spec fn position(&self) -> int {
        self.pos as int
    }

    /// The cursor points inside the text and its byte offset agrees with its
    /// character position.
    pub closed spec fn wf(&self) -> bool {
        self.pos <= self.text@.len() && self.byte_pos == utf8_len(self.text@.take(self.pos as int))
    }

    /// The characters that have not been consumed yet.
    pub open spec fn remaining(&self) -> Seq<char> {
        self.chars().skip(self.position())
    }

    /// A well-formed cursor stands between the start and the end of its
    /// text.
    pub broadcast proof fn lemma_wf_bounds(&self)
        requires
            #[trigger] self.wf(),
        ensures
            0 <= self.position() <= self.chars().len(),
            self.position() <= usize::MAX,
    {
    }

    /// A cursor at the start of `text`.
    pub fn new(text: &'a str) -> (r: Cursor<'a>)
        ensures
            r.wf(),
            r.chars() == text@,
            r.position() == 0,
    {
        proof {
            assert(text@.take(0) =~= Seq::<char>::empty());
        }
        Cursor { text, pos: 0, byte_pos: 0 }
    }

    /// A cursor at character position `pos` of `text`, whose byte offset is
    /// `byte_pos`.
    pub(crate) fn at_position(text: &'a str, pos: usize, byte_pos: usize) -> (r: Cursor<'a>)
        requires
            pos <= text@.len(),
            byte_pos == utf8_len(text@.take(pos as int)),
        ensures
            r.wf(),
            r.chars() == text@,
            r.position() == pos,
    {
        Cursor { text, pos, byte_pos }
    }

    /// The current position, as a character index into the text.
    pub fn char_position(&self) -> (r: usize)
        ensures
            r == self.position(),
    {
        self.pos
    }

    /// The byte offset of the current position into the text.
    pub fn byte_position(&self) -> (r: usize)
        requires
            self.wf(),
        ensures
            r == utf8_len(self.chars().take(self.position())),
    {
        self.byte_pos
    }

    /// Returns the next character without consuming it.
    pub fn peek(&self) -> (r: Option<char>)
        requires
            self.wf(),
        ensures
            self.remaining().len() == 0 ==> r is None,
            self.remaining().len() > 0 ==> r == Some(self.remaining()[0]),
    {
        if self.pos < self.text.unicode_len() {
            Some(self.text.get_char(self.pos))
        } else {
            None
        }
    }

    /// Consumes and returns the next character, if one is left.
    pub fn next(&mut self) -> (r: Option<char>)
        requires
            old(self).wf(),
        ensures
            final(self).wf(),
            final(self).chars() == old(self).chars(),
            old(self).remaining().len() == 0 ==> r is None && final(self).position() == old(self).position(),
            old(self).remaining().len() > 0 ==> r == Some(old(self).remaining()[0]) && final(self).position() == old(self).position() + 1,
    {
        if self.pos < self.text.unicode_len() {
            let c = self.text.get_char(self.pos);
            let width = char_utf8_len(c);
            proof {
                lemma_utf8_len_take_succ(self.text@, self.pos as int);
                lemma_utf8_len_prefix(self.text@, self.pos + 1);
            }
            let bytes = self.text.as_bytes();
            proof {
                assert(bytes@.len() <= usize::MAX) by {
                    assert(vstd::slice::spec_slice_len(bytes) == bytes@.len());
                }
            }
            assert(self.byte_pos + width <= bytes@.len());
            self.byte_pos = self.byte_pos + width;
            self.pos = self.pos + 1;
            Some(c)
        } else {
            None
        }
    }

    /// The remaining suffix of the text, as a string slice.
    pub fn as_str(&self) -> (r: &'a str)
        requires
            self.wf(),
        ensures
            r@ == self.remaining(),
    {
        let text: &'a str = self.text;
        let n = text.unicode_len();
        text.substring_char(self.pos, n)
    }
}

} // verus!
