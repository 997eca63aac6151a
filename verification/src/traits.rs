//! Small extensions of primitive types: ANSI colours, digit counts, extrema
//! and widening conversions.

use crate::decimal::{decimal, decimal_width, u64_to_string};
use crate::text::to_chars;
use vstd::prelude::*;
use vstd::string::StringExecFns;

verus! {

/// Ends colour and weight.
pub const RESET: &'static str = "\x1b[0m";

/// Begins bold text.
pub const BOLD: &'static str = "\x1b[1m";

/// Begins red text.
pub const RED: &'static str = "\x1b[31m";

/// Begins green text.
pub const GREEN: &'static str = "\x1b[32m";

/// Begins yellow text.
pub const YELLOW: &'static str = "\x1b[33m";

/// Begins blue text.
pub const BLUE: &'static str = "\x1b[34m";

/// `text` between the escape sequence `code` and the reset sequence.
pub open spec fn painted(code: Seq<char>, text: Seq<char>) -> Seq<char> {
    code + text + RESET@
}

/// Wraps `text` in the escape sequence `code` and the reset sequence.
pub fn paint(code: &str, text: &str) -> (r: String)
    ensures
        r@ == painted(code@, text@),
{
    let mut r = String::from_str(code);
    r.append(text);
    r.append(RESET);
    r
}

/// Text shown in an ANSI colour or weight.
pub trait Colors {
    /// The text as it is shown without any colour.
    spec fn plain(&self) -> Seq<char>;

    fn plain_text(&self) -> (r: String)
        ensures
            r@ == self.plain(),
    ;

    fn bold(&self) -> (r: String)
        ensures
            r@ == painted(BOLD@, self.plain()),
    {
        paint(BOLD, self.plain_text().as_str())
    }

    fn red(&self) -> (r: String)
        ensures
            r@ == painted(RED@, self.plain()),
    {
        paint(RED, self.plain_text().as_str())
    }

    fn green(&self) -> (r: String)
        ensures
            r@ == painted(GREEN@, self.plain()),
    {
        paint(GREEN, self.plain_text().as_str())
    }

    fn yellow(&self) -> (r: String)
        ensures
            r@ == painted(YELLOW@, self.plain()),
    {
        paint(YELLOW, self.plain_text().as_str())
    }

    fn blue(&self) -> (r: String)
        ensures
            r@ == painted(BLUE@, self.plain()),
    {
        paint(BLUE, self.plain_text().as_str())
    }
}

impl Colors for str {
    open spec fn plain(&self) -> Seq<char> {
        self@
    }

    fn plain_text(&self) -> (r: String) {
        String::from_str(self)
    }
}

impl Colors for String {
    open spec fn plain(&self) -> Seq<char> {
        self@
    }

    fn plain_text(&self) -> (r: String) {
        self.clone()
    }
}

impl Colors for u64 {
    open spec fn plain(&self) -> Seq<char> {
        decimal(*self as nat)
    }

    fn plain_text(&self) -> (r: String) {
        u64_to_string(*self)
    }
}

impl Colors for usize {
    open spec fn plain(&self) -> Seq<char> {
        decimal(*self as nat)
    }

    fn plain_text(&self) -> (r: String) {
        u64_to_string(*self as u64)
    }
}

/// The number of characters that a value takes when written out.
pub trait Countable {
    spec fn char_count(&self) -> nat;

    fn count_chars(&self) -> (r: usize)
        ensures
            r == self.char_count(),
    ;
}

impl Countable for u64 {
    open spec fn char_count(&self) -> nat {
        decimal(*self as nat).len()
    }

    fn count_chars(&self) -> (r: usize) {
        decimal_width(*self)
    }
}

impl Countable for usize {
    open spec fn char_count(&self) -> nat {
        decimal(*self as nat).len()
    }

    fn count_chars(&self) -> (r: usize) {
        decimal_width(*self as u64)
    }
}

impl Countable for str {
    open spec fn char_count(&self) -> nat {
        self@.len()
    }

    fn count_chars(&self) -> (r: usize) {
        to_chars(self).len()
    }
}

/// The smallest and the largest of a list of integers.
pub trait IntegerIterExt {
    spec fn items(&self) -> Seq<u32>;

    /// The smallest item; `u32::MAX` where there is none.
    fn integer_min(&self) -> (r: u32)
        ensures
            forall|i: int| 0 <= i < self.items().len() ==> r <= self.items()[i],
            self.items().len() > 0 ==> self.items().contains(r),
            self.items().len() == 0 ==> r == u32::MAX,
    ;

    /// The largest item; `u32::MIN` where there is none.
    fn integer_max(&self) -> (r: u32)
        ensures
            forall|i: int| 0 <= i < self.items().len() ==> self.items()[i] <= r,
            self.items().len() > 0 ==> self.items().contains(r),
            self.items().len() == 0 ==> r == u32::MIN,
    ;
}

impl IntegerIterExt for Vec<u32> {
    open spec fn items(&self) -> Seq<u32> {
        self@
    }

    fn integer_min(&self) -> (r: u32) {
        let mut best: u32 = u32::MAX;
        let mut i: usize = 0;
        while i < self.len()
            invariant
                i <= self.len(),
                forall|k: int| 0 <= k < i ==> best <= self@[k],
                i > 0 ==> exists|k: int| 0 <= k < i && self@[k] == best,
                i == 0 ==> best == u32::MAX,
            decreases self.len() - i,
        {
            if self[i] < best || i == 0 {
                best = self[i];
            }
            i += 1;
        }
        best
    }

    fn integer_max(&self) -> (r: u32) {
        let mut best: u32 = u32::MIN;
        let mut i: usize = 0;
        while i < self.len()
            invariant
                i <= self.len(),
                forall|k: int| 0 <= k < i ==> self@[k] <= best,
                i > 0 ==> exists|k: int| 0 <= k < i && self@[k] == best,
                i == 0 ==> best == u32::MIN,
            decreases self.len() - i,
        {
            if self[i] > best || i == 0 {
                best = self[i];
            }
            i += 1;
        }
        best
    }
}

/// Widening conversions of `u8`.
pub trait U8Extension {
    fn to_usize(self) -> (r: usize)
        ensures
            r == self.wide(),
    ;

    fn to_u64(self) -> (r: u64)
        ensures
            r == self.wide(),
    ;

    spec fn wide(self) -> nat;
}

impl U8Extension for u8 {
    open spec fn wide(self) -> nat {
        self as nat
    }

    fn to_usize(self) -> (r: usize) {
        self as usize
    }

    fn to_u64(self) -> (r: u64) {
        self as u64
    }
}

} // verus!
