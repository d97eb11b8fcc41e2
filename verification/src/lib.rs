//! Utilities for decoding backslash-escape sequences in a string, borrowing
//! the input when no escape is present and allocating only when a
//! transformation is required.
//!
//! The supported escape sequences of the default handler are the fixed
//! substitutions `\a`, `\b`, `\t`, `\n`, `\v`, `\f`, `\r` and `\e`; the
//! quoting characters `` \` ``, `\'`, `\"` and `\\`; `\xNN` with two
//! hexadecimal digits; `\u{HEX}` and `\uNNNN`; and octal escapes of one to
//! three digits. Custom handlers can replace the default one through
//! [`EscapeHandler`].

pub mod cursor;
pub mod digits;
pub mod error;
pub mod handler;
pub mod scanner;
mod stdlib;

pub use cursor::Cursor;
pub use error::InvalidEscape;
pub use handler::{unescape_hex, unescape_oct, unescape_unicode};
pub use handler::{DefaultHandler, EscapeHandler};
pub use scanner::to_unescaped_with_mono;

use std::borrow::Cow;
use vstd::prelude::*;

verus! {

/// Restricts which text representations [`UnescapeExt`] accepts: there is
/// exactly one valid representation of text to unescape.
pub trait Sealed {}

impl Sealed for str {
}

/// An extension trait for [`str`] to decode escape sequences in strings,
/// copying only when needed.
pub trait UnescapeExt: Sealed + View<V = Seq<char>> {
    /// Unescapes a string with [`DefaultHandler`], returning a
    /// [`Cow`] that borrows the input when it holds no escape.
    ///
    /// Fails at the byte index of the backslash that begins an invalid
    /// escape sequence.
    fn to_unescaped<'a>(&'a self) -> (r: Result<Cow<'a, str>, InvalidEscape>)
        ensures
            scanner::decode_result(DefaultHandler, self@, r),
            !scanner::has_escape(self@) ==> (r matches Ok(out) && out is Borrowed),
    ;

    /// Unescapes a string with a custom escape handler. See
    /// [`EscapeHandler`] for what a handler may do.
    ///
    /// Fails at the byte index of the backslash that begins an escape
    /// sequence the handler rejects.
    fn to_unescaped_with<'a, H: EscapeHandler>(&'a self, callback: H) -> (r: Result<
        Cow<'a, str>,
        InvalidEscape,
    >)
        ensures
            scanner::decode_result(callback, self@, r),
            !scanner::has_escape(self@) ==> (r matches Ok(out) && out is Borrowed),
    ;
}

impl UnescapeExt for str {
    fn to_unescaped<'a>(&'a self) -> (r: Result<Cow<'a, str>, InvalidEscape>) {
        self.to_unescaped_with(DefaultHandler)
    }

    fn to_unescaped_with<'a, H: EscapeHandler>(&'a self, callback: H) -> (r: Result<
        Cow<'a, str>,
        InvalidEscape,
    >) {
        let mut callback = callback;
        to_unescaped_with_mono(self, &mut callback)
    }
}

} // verus!
