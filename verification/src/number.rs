//! The numeric scanner: decides whether a numeric literal starts at the
//! cursor and measures its byte length.
//!
//! The scan is permissive — it keeps hex digits, underscores, dots followed
//! by a digit, and one signed exponent together in one token — and defers
//! fine-grained validation (multiple dots, malformed exponents) to a later
//! stage. Once an exponent sign has been consumed, only digits and
//! underscores extend the literal, so `1e-10rest` measures five bytes.

use vstd::prelude::*;
use vstd::string::StringSliceAdditionalSpecFns;

use crate::ascii;
use crate::ascii::DOT;
use crate::ascii::LOWER_E;
use crate::ascii::MINUS;
use crate::ascii::PLUS;
use crate::ascii::UNDERSCORE;
use crate::ascii::UPPER_E;

verus! {

/// Whether a numeric literal starts at byte `i`: a digit, or a dot
/// immediately followed by a digit.
pub open spec fn num_starts_at(s: Seq<u8>, i: int) -> bool {
    0 <= i < s.len() && (ascii::spec_digit(s[i]) || (s[i] == DOT && i + 1 < s.len()
        && ascii::spec_digit(s[i + 1])))
}

/// Whether a numeric literal starts at the first byte.
pub open spec fn num_starts(s: Seq<u8>) -> bool {
    num_starts_at(s, 0)
}

/// Where the literal that started at byte 0 ends, scanning from byte `i`.
/// `prev_e` notes that the previous byte was an exponent marker, so a sign
/// may follow; `exp_tail` notes that the exponent's sign was consumed, after
/// which only digits and underscores extend the literal.
pub open spec fn num_scan_from(s: Seq<u8>, i: int, prev_e: bool, exp_tail: bool) -> int
    decreases s.len() - i,
{
    if i < 0 || i >= s.len() {
        s.len() as int
    } else {
        let b = s[i];
        if exp_tail {
            if ascii::spec_digit(b) || b == UNDERSCORE {
                num_scan_from(s, i + 1, false, true)
            } else {
                i
            }
        } else if b == PLUS || b == MINUS {
            if prev_e {
                num_scan_from(s, i + 1, false, true)
            } else {
                i
            }
        } else if b == UNDERSCORE {
            num_scan_from(s, i + 1, false, false)
        } else if b == DOT {
            if i + 1 < s.len() && ascii::spec_digit(s[i + 1]) {
                num_scan_from(s, i + 1, false, false)
            } else {
                i
            }
        } else if ascii::spec_alphanumeric(b) {
            num_scan_from(s, i + 1, b == LOWER_E || b == UPPER_E, false)
        } else {
            i
        }
    }
}

/// The byte length of the numeric literal at the start of `s`, or `None`
/// when no numeric literal starts there.
pub open spec fn num_scan(s: Seq<u8>) -> Option<int> {
    if num_starts(s) {
        Some(num_scan_from(s, 1, false, false))
    } else {
        None
    }
}

/// The scanned length never leaves the buffer and covers at least the
/// bytes already consumed.
pub proof fn lemma_num_scan_from_bounds(s: Seq<u8>, i: int, prev_e: bool, exp_tail: bool)
    requires
        0 < i <= s.len(),
    ensures
        i <= num_scan_from(s, i, prev_e, exp_tail) <= s.len(),
    decreases s.len() - i,
{
    if i < s.len() {
        let b = s[i];
        if exp_tail {
            if ascii::spec_digit(b) || b == UNDERSCORE {
                lemma_num_scan_from_bounds(s, i + 1, false, true);
            }
        } else if b == PLUS || b == MINUS {
            if prev_e {
                lemma_num_scan_from_bounds(s, i + 1, false, true);
            }
        } else if b == UNDERSCORE {
            lemma_num_scan_from_bounds(s, i + 1, false, false);
        } else if b == DOT {
            if i + 1 < s.len() && ascii::spec_digit(s[i + 1]) {
                lemma_num_scan_from_bounds(s, i + 1, false, false);
            }
        } else if ascii::spec_alphanumeric(b) {
            lemma_num_scan_from_bounds(s, i + 1, b == LOWER_E || b == UPPER_E, false);
        }
    }
}

/// The numeric scanner. It owns no state; a successful scan reports the
/// literal's byte length.
#[derive(Debug, PartialEq, Eq, Structural)]
pub struct Num;

impl Num {
    /// Measure the numeric literal at the start of `src`, if one starts
    /// there.
    pub fn lex_first(src: &str) -> (r: Option<(usize, Num)>)
        ensures
            r is Some <==> num_scan(src.spec_bytes()) is Some,
            r matches Some(p) ==> num_scan(src.spec_bytes()) == Some(p.0 as int),
    {
        let bytes = src.as_bytes();
        Self::lex_first_bytes(bytes)
    }

    /// The scan itself, over the raw bytes of the buffer.
    pub fn lex_first_bytes(bytes: &[u8]) -> (r: Option<(usize, Num)>)
        ensures
            r is Some <==> num_scan(bytes@) is Some,
            r matches Some(p) ==> num_scan(bytes@) == Some(p.0 as int),
    {
        let n = bytes.len();
        if n == 0 {
            return None;
        }
        let first = bytes[0];
        let starts = ascii::digit(first) || (first == DOT && n > 1 && ascii::digit(bytes[1]));
        if !starts {
            return None;
        }
        Some((num_end(bytes, 0), Num))
    }
}

/// The end of the numeric literal that starts at byte `from`.
pub fn num_end(bytes: &[u8], from: usize) -> (r: usize)
    requires
        num_starts_at(bytes@, from as int),
    ensures
        r == num_scan_from(bytes@, from + 1, false, false),
        from < r <= bytes@.len(),
{
    let n = bytes.len();
    let mut i: usize = from + 1;
    let mut prev_e = false;
    let mut exp_tail = false;
    proof {
        lemma_num_scan_from_bounds(bytes@, from + 1, false, false);
    }
    while i < n
        invariant
            from + 1 <= i <= n == bytes@.len(),
            num_scan_from(bytes@, from + 1, false, false) == num_scan_from(
                bytes@,
                i as int,
                prev_e,
                exp_tail,
            ),
            from < num_scan_from(bytes@, from + 1, false, false) <= bytes@.len(),
        decreases n - i,
    {
        let b = bytes[i];
        let resume: bool;
        let e_next: bool;
        let tail_next: bool;
        if exp_tail {
            resume = ascii::digit(b) || b == UNDERSCORE;
            e_next = false;
            tail_next = true;
        } else if b == PLUS || b == MINUS {
            resume = prev_e;
            e_next = false;
            tail_next = true;
        } else if b == UNDERSCORE {
            resume = true;
            e_next = false;
            tail_next = false;
        } else if b == DOT {
            resume = i + 1 < n && ascii::digit(bytes[i + 1]);
            e_next = false;
            tail_next = false;
        } else {
            resume = ascii::alphanumeric(b);
            e_next = b == LOWER_E || b == UPPER_E;
            tail_next = false;
        }
        if !resume {
            return i;
        }
        prev_e = e_next;
        exp_tail = tail_next;
        i = i + 1;
    }
    n
}

} // verus!
