//! Escape resolution: the handler capability, the built-in decoders for
//! hexadecimal, Unicode and octal escapes, and the default handler that
//! dispatches between them.
//!
//! Each decoder has a specification-level twin that states, over the
//! characters following the trigger, exactly which escapes succeed, what
//! character they denote, and how many characters they consume.

use crate::cursor::Cursor;
use crate::digits::{
    hex_digit_of, hex_digit_val, hex_run_len, hex_val, is_hex_digit, is_oct_digit,
    is_scalar_value, lemma_hex_val_push, oct_digit_of, oct_digit_val,
};
use crate::stdlib::char_from_u32;
use vstd::prelude::*;

verus! {

broadcast use {vstd::seq_lib::lemma_seq_skip_of_skip, crate::cursor::Cursor::lemma_wf_bounds};

/// The character denoted by `\xNN`, given the characters after the `x`:
/// exactly two hexadecimal digits are required, and their value (at most
/// 255) is always a valid scalar.
pub open spec fn hex_outcome(rest: Seq<char>) -> Option<char> {
    if rest.len() >= 2 && is_hex_digit(rest[0]) && is_hex_digit(rest[1]) {
        Some(((hex_digit_val(rest[0]) * 16 + hex_digit_val(rest[1])) as u32) as char)
    } else {
        None
    }
}

/// The value `v`, clamped just above the greatest Unicode code point, so
/// that arbitrarily long digit runs can be accumulated without overflow
/// while still deciding whether the exact value is a scalar.
pub open spec fn clamp_code(v: nat) -> nat {
    if v > 0x10FFFF {
        0x110000
    } else {
        v
    }
}

/// The character denoted by `\u{HEX}` or `\uNNNN`, given the characters
/// after the `u`. The braced form takes one or more hexadecimal digits up
/// to a closing brace; the bare form takes exactly four hexadecimal digits.
/// Both fail when the value is not a Unicode scalar.
pub open spec fn unicode_outcome(rest: Seq<char>) -> Option<char> {
    if rest.len() > 0 && rest[0] == '{' {
        let k = hex_run_len(rest, 1);
        let v = hex_val(rest.subrange(1, 1 + k));
        if 1 + k < rest.len() && rest[1 + k] == '}' && k >= 1 && is_scalar_value(v) {
            Some((v as u32) as char)
        } else {
            None
        }
    } else if rest.len() >= 4 && is_hex_digit(rest[0]) && is_hex_digit(rest[1]) && is_hex_digit(
        rest[2],
    ) && is_hex_digit(rest[3]) {
        let v = ((hex_digit_val(rest[0]) * 16 + hex_digit_val(rest[1])) * 16 + hex_digit_val(
            rest[2],
        )) * 16 + hex_digit_val(rest[3]);
        if is_scalar_value(v) {
            Some((v as u32) as char)
        } else {
            None
        }
    } else {
        None
    }
}

/// How many characters a successful Unicode escape consumes after the `u`:
/// the digits and both braces for the braced form, four digits for the bare
/// form.
pub open spec fn unicode_consumed(rest: Seq<char>) -> nat {
    if rest.len() > 0 && rest[0] == '{' {
        (hex_run_len(rest, 1) + 2) as nat
    } else {
        4
    }
}

/// How many characters beyond the trigger digit an octal escape consumes:
/// greedily up to two further octal digits.
pub open spec fn oct_extra(rest: Seq<char>) -> nat {
    if rest.len() >= 1 && is_oct_digit(rest[0]) {
        if rest.len() >= 2 && is_oct_digit(rest[1]) {
            2
        } else {
            1
        }
    } else {
        0
    }
}

/// The value of an octal escape whose trigger digit is `chr`, over the
/// characters after it. At most 0o777, so always a valid scalar.
pub open spec fn oct_value(chr: char, rest: Seq<char>) -> nat {
    if oct_extra(rest) == 2 {
        oct_digit_val(chr) * 64 + oct_digit_val(rest[0]) * 8 + oct_digit_val(rest[1])
    } else if oct_extra(rest) == 1 {
        oct_digit_val(chr) * 8 + oct_digit_val(rest[0])
    } else {
        oct_digit_val(chr)
    }
}

/// The character denoted by an octal escape. Octal escapes never fail.
pub open spec fn oct_outcome(chr: char, rest: Seq<char>) -> char {
    (oct_value(chr, rest) as u32) as char
}

/// The fixed control-character substitutions of the default handler.
pub open spec fn control_escape(chr: char) -> Option<char> {
    if chr == 'a' {
        Some('\x07')
    } else if chr == 'b' {
        Some('\x08')
    } else if chr == 't' {
        Some('\x09')
    } else if chr == 'n' {
        Some('\x0A')
    } else if chr == 'v' {
        Some('\x0B')
    } else if chr == 'f' {
        Some('\x0C')
    } else if chr == 'r' {
        Some('\x0D')
    } else if chr == 'e' {
        Some('\x1B')
    } else {
        None
    }
}

/// What the default handler makes of an escape whose trigger character is
/// `chr`, over the characters that follow it: a replacement character, or a
/// failure.
pub open spec fn default_outcome(chr: char, rest: Seq<char>) -> Result<Option<char>, ()> {
    if control_escape(chr) is Some {
        Ok(control_escape(chr))
    } else if chr == '`' || chr == '\'' || chr == '"' || chr == '\\' {
        Ok(Some(chr))
    } else if chr == 'x' {
        match hex_outcome(rest) {
            Some(c) => Ok(Some(c)),
            None => Err(()),
        }
    } else if chr == 'u' {
        match unicode_outcome(rest) {
            Some(c) => Ok(Some(c)),
            None => Err(()),
        }
    } else if is_oct_digit(chr) {
        Ok(Some(oct_outcome(chr, rest)))
    } else {
        Err(())
    }
}

/// How many characters after the trigger the default handler consumes on
/// success.
pub open spec fn default_consumed(chr: char, rest: Seq<char>) -> nat {
    if chr == 'x' {
        2
    } else if chr == 'u' {
        unicode_consumed(rest)
    } else if is_oct_digit(chr) {
        oct_extra(rest)
    } else {
        0
    }
}

/// A handler for escape sequences: the open extension point of the scanner.
///
/// The handler is invoked once a backslash and the trigger character after
/// it have been read; the cursor it receives is positioned just after the
/// trigger. It may consume further characters from the cursor; whatever it
/// consumes is permanently skipped by the scanner. Returning `Ok(Some(c))`
/// replaces the escape sequence with `c`, returning `Ok(None)` removes it
/// entirely, and returning `Err(())` aborts the decode at the byte index of
/// the backslash.
///
/// The three specification functions are the handler's model: every
/// implementation states what it resolves an escape to, how many characters
/// it consumes on success, and what state it is in afterwards.
pub trait EscapeHandler: Sized {
    /// What the handler resolves an escape to, given the byte index of the
    /// backslash, the trigger character, and the characters after the
    /// trigger. Left at its default, it models a handler that rejects
    /// every escape.
    open spec fn outcome(&self, idx: int, chr: char, rest: Seq<char>) -> Result<Option<char>, ()> {
        Err(())
    }

    /// How many characters after the trigger the handler consumes when it
    /// succeeds.
    open spec fn consumed(&self, idx: int, chr: char, rest: Seq<char>) -> nat {
        0
    }

    /// The handler's state after resolving one escape.
    open spec fn next_state(&self, idx: int, chr: char, rest: Seq<char>) -> Self {
        *self
    }

    /// Resolves one escape sequence.
    ///
    /// `idx` is the byte index of the backslash that began the sequence,
    /// `chr` the character immediately after the backslash, and `cursor`
    /// stands just after `chr`.
    fn escape(&mut self, idx: usize, chr: char, cursor: &mut Cursor<'_>) -> (r: Result<
        Option<char>,
        (),
    >)
        requires
            old(cursor).wf(),
        ensures
            final(cursor).wf(),
            final(cursor).chars() == old(cursor).chars(),
            old(cursor).position() <= final(cursor).position(),
            r == old(self).outcome(idx as int, chr, old(cursor).remaining()),
            *final(self) == old(self).next_state(idx as int, chr, old(cursor).remaining()),
            r is Ok ==> final(cursor).position() == old(cursor).position() + old(self).consumed(
                idx as int,
                chr,
                old(cursor).remaining(),
            ),
    ;
}

/// Decodes `\xNN`: exactly two hexadecimal digits, consumed from the
/// cursor.
pub fn unescape_hex(cursor: &mut Cursor<'_>) -> (r: Option<char>)
    requires
        old(cursor).wf(),
    ensures
        final(cursor).wf(),
        final(cursor).chars() == old(cursor).chars(),
        old(cursor).position() <= final(cursor).position(),
        r == hex_outcome(old(cursor).remaining()),
        r is Some ==> final(cursor).position() == old(cursor).position() + 2,
{
    let ghost rest = cursor.remaining();
    let c0 = match cursor.next() {
        Some(c) => c,
        None => {
            return None;
        },
    };
    proof {
        assert(c0 == rest[0]);
        assert(cursor.remaining() =~= rest.skip(1));
    }
    let c1 = match cursor.next() {
        Some(c) => c,
        None => {
            return None;
        },
    };
    proof {
        assert(c1 == rest.skip(1)[0]);
        assert(c1 == rest[1]);
    }
    let d0 = match hex_digit_of(c0) {
        Some(d) => d,
        None => {
            return None;
        },
    };
    let d1 = match hex_digit_of(c1) {
        Some(d) => d,
        None => {
            return None;
        },
    };
    let v = d0 * 16 + d1;
    let c = char_from_u32(v).unwrap();
    proof {
        vstd::utf8::char_u32_cast(c, v);
    }
    Some(c)
}

/// Decodes `\u{HEX}` or `\uNNNN`, consuming the form's characters from the
/// cursor.
pub fn unescape_unicode(cursor: &mut Cursor<'_>) -> (r: Option<char>)
    requires
        old(cursor).wf(),
    ensures
        final(cursor).wf(),
        final(cursor).chars() == old(cursor).chars(),
        old(cursor).position() <= final(cursor).position(),
        r == unicode_outcome(old(cursor).remaining()),
        r is Some ==> final(cursor).position() == old(cursor).position() + unicode_consumed(
            old(cursor).remaining(),
        ),
{
    let ghost rest = cursor.remaining();
    let ghost chars0 = cursor.chars();
    let ghost pos0: int = cursor.position();
    let c0 = match cursor.next() {
        Some(c) => c,
        None => {
            return None;
        },
    };
    proof {
        assert(c0 == rest[0]);
    }
    if c0 == '{' {
        let mut val: u32 = 0;
        let mut count: usize = 0;
        loop
            invariant
                cursor.wf(),
                cursor.chars() == chars0,
                chars0 == old(cursor).chars(),
                pos0 == old(cursor).position(),
                rest == chars0.skip(pos0),
                0 <= pos0 <= chars0.len(),
                rest.len() >= 1 && rest[0] == '{',
                cursor.position() == pos0 + 1 + count,
                1 + count <= rest.len(),
                hex_run_len(rest, 1) == count + hex_run_len(rest, 1 + count),
                val == clamp_code(hex_val(rest.subrange(1, 1 + count as int))),
                val <= 0x110000,
            decreases rest.len() - count,
        {
            proof {
                assert(cursor.remaining() =~= rest.skip(1 + count as int));
            }
            match cursor.next() {
                None => {
                    proof {
                        assert(rest.len() == 1 + count);
                        assert(hex_run_len(rest, 1 + count) == 0);
                    }
                    return None;
                },
                Some(c) => {
                    proof {
                        assert(c == rest[1 + count]);
                    }
                    if c == '}' {
                        proof {
                            assert(!is_hex_digit(c));
                            assert(hex_run_len(rest, 1 + count) == 0);
                        }
                        if count == 0 {
                            return None;
                        }
                        if val > 0x10FFFF {
                            return None;
                        }
                        match char_from_u32(val) {
                            Some(c2) => {
                                proof {
                                    vstd::utf8::char_u32_cast(c2, val);
                                }
                                return Some(c2);
                            },
                            None => {
                                return None;
                            },
                        }
                    } else {
                        let d = match hex_digit_of(c) {
                            Some(d) => d,
                            None => {
                                proof {
                                    assert(hex_run_len(rest, 1 + count) == 0);
                                }
                                return None;
                            },
                        };
                        proof {
                            assert(hex_run_len(rest, 1 + count) == 1 + hex_run_len(
                                rest,
                                2 + count,
                            ));
                            lemma_hex_val_push(rest.subrange(1, 1 + count as int), c);
                            assert(rest.subrange(1, 2 + count as int) =~= rest.subrange(
                                1,
                                1 + count as int,
                            ).push(rest[1 + count]));
                        }
                        val = if val >= 0x110000 {
                            0x110000
                        } else {
                            let t = val * 16 + d;
                            if t > 0x10FFFF {
                                0x110000
                            } else {
                                t
                            }
                        };
                        count = count + 1;
                    }
                },
            }
        }
    } else {
        let d0 = match hex_digit_of(c0) {
            Some(d) => d,
            None => {
                return None;
            },
        };
        proof {
            assert(cursor.remaining() =~= rest.skip(1));
        }
        let c1 = match cursor.next() {
            Some(c) => c,
            None => {
                return None;
            },
        };
        proof {
            assert(c1 == rest[1]);
            assert(cursor.remaining() =~= rest.skip(2));
        }
        let d1 = match hex_digit_of(c1) {
            Some(d) => d,
            None => {
                return None;
            },
        };
        let c2 = match cursor.next() {
            Some(c) => c,
            None => {
                return None;
            },
        };
        proof {
            assert(c2 == rest[2]);
            assert(cursor.remaining() =~= rest.skip(3));
        }
        let d2 = match hex_digit_of(c2) {
            Some(d) => d,
            None => {
                return None;
            },
        };
        let c3 = match cursor.next() {
            Some(c) => c,
            None => {
                return None;
            },
        };
        proof {
            assert(c3 == rest[3]);
        }
        let d3 = match hex_digit_of(c3) {
            Some(d) => d,
            None => {
                return None;
            },
        };
        let v = ((d0 * 16 + d1) * 16 + d2) * 16 + d3;
        match char_from_u32(v) {
            Some(c) => {
                proof {
                    vstd::utf8::char_u32_cast(c, v);
                }
                Some(c)
            },
            None => None,
        }
    }
}

/// Decodes an octal escape whose trigger digit is `chr`: greedily consumes
/// up to two further octal digits from the cursor. Octal escapes never
/// fail.
pub fn unescape_oct(chr: char, cursor: &mut Cursor<'_>) -> (r: char)
    requires
        old(cursor).wf(),
        is_oct_digit(chr),
    ensures
        final(cursor).wf(),
        final(cursor).chars() == old(cursor).chars(),
        old(cursor).position() <= final(cursor).position(),
        r == oct_outcome(chr, old(cursor).remaining()),
        final(cursor).position() == old(cursor).position() + oct_extra(old(cursor).remaining()),
{
    let ghost rest = cursor.remaining();
    let d0 = oct_digit_of(chr).unwrap();
    let mut val: u32 = d0;
    match cursor.peek() {
        Some(c1) => {
            match oct_digit_of(c1) {
                Some(d1) => {
                    let _ = cursor.next();
                    proof {
                        assert(cursor.remaining() =~= rest.skip(1));
                    }
                    val = val * 8 + d1;
                    match cursor.peek() {
                        Some(c2) => {
                            proof {
                                assert(c2 == rest[1]);
                            }
                            match oct_digit_of(c2) {
                                Some(d2) => {
                                    let _ = cursor.next();
                                    val = val * 8 + d2;
                                },
                                None => {},
                            }
                        },
                        None => {},
                    }
                },
                None => {},
            }
        },
        None => {},
    }
    let c = char_from_u32(val).unwrap();
    proof {
        vstd::utf8::char_u32_cast(c, val);
    }
    c
}

/// The default escape sequence handler.
///
/// Fixed substitutions for `\a`, `\b`, `\t`, `\n`, `\v`, `\f`, `\r` and
/// `\e`; the quoting characters backtick, single quote, double quote and
/// backslash stand for themselves; `\xNN`, `\u{HEX}`, `\uNNNN` and octal
/// escapes of one to three digits are delegated to the decoders above.
/// Every other escape fails.
pub struct DefaultHandler;

impl EscapeHandler for DefaultHandler {
    open spec fn outcome(&self, idx: int, chr: char, rest: Seq<char>) -> Result<Option<char>, ()> {
        default_outcome(chr, rest)
    }

    open spec fn consumed(&self, idx: int, chr: char, rest: Seq<char>) -> nat {
        default_consumed(chr, rest)
    }

    open spec fn next_state(&self, idx: int, chr: char, rest: Seq<char>) -> DefaultHandler {
        DefaultHandler
    }

    fn escape(&mut self, idx: usize, chr: char, cursor: &mut Cursor<'_>) -> (r: Result<
        Option<char>,
        (),
    >) {
        if chr == 'a' {
            Ok(Some('\x07'))
        } else if chr == 'b' {
            Ok(Some('\x08'))
        } else if chr == 't' {
            Ok(Some('\x09'))
        } else if chr == 'n' {
            Ok(Some('\x0A'))
        } else if chr == 'v' {
            Ok(Some('\x0B'))
        } else if chr == 'f' {
            Ok(Some('\x0C'))
        } else if chr == 'r' {
            Ok(Some('\x0D'))
        } else if chr == 'e' {
            Ok(Some('\x1B'))
        } else if chr == '`' || chr == '\'' || chr == '"' || chr == '\\' {
            Ok(Some(chr))
        } else if chr == 'x' {
            match unescape_hex(cursor) {
                Some(c) => Ok(Some(c)),
                None => Err(()),
            }
        } else if chr == 'u' {
            match unescape_unicode(cursor) {
                Some(c) => Ok(Some(c)),
                None => Err(()),
            }
        } else {
            match oct_digit_of(chr) {
                Some(_) => Ok(Some(unescape_oct(chr, cursor))),
                None => Err(()),
            }
        }
    }
}

} // verus!
