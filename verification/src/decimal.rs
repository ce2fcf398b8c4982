//! Numbers with a fraction, kept as the text that spells them.
//!
//! Verified code has no use for the value of such a number: it tells a number from other text,
//! stores it and hands it on. A [`Decimal`] is therefore its spelling, checked against the
//! grammar below, and the caller turns it into the precision it wants.

use vstd::prelude::*;
use crate::text::{chars_of, is_digit};

verus! {

/// The first index from `from` on at which `s` holds no digit, or the length of `s`.
pub open spec fn digits_end(s: Seq<char>, from: int) -> int
    decreases s.len() - from,
{
    if 0 <= from < s.len() && is_digit(s[from]) {
        digits_end(s, from + 1)
    } else {
        from
    }
}

/// Whether `c` is the lower-case letter `letter` or its capital.
pub open spec fn same_letter(c: char, letter: char) -> bool {
    c == letter || (65 <= c as u32 <= 90 && c as u32 + 32 == letter as u32)
}

/// Whether `s` from `from` on spells the lower-case `word`, in capitals or not.
pub open spec fn is_word_at(s: Seq<char>, from: int, word: Seq<char>) -> bool {
    &&& s.len() - from == word.len()
    &&& forall|i: int| 0 <= i < word.len() ==> same_letter(#[trigger] s[from + i], word[i])
}

/// Whether `c` is a sign.
pub open spec fn is_sign(c: char) -> bool {
    c == '+' || c == '-'
}

/// Whether `s` from `at` to its end is an exponent: `e` or `E`, an optional sign, digits.
pub open spec fn is_exponent_at(s: Seq<char>, at: int) -> bool {
    let digits = if at + 1 < s.len() && is_sign(s[at + 1]) {
        at + 2
    } else {
        at + 1
    };
    &&& 0 <= at < s.len()
    &&& (s[at] == 'e' || s[at] == 'E')
    &&& digits < s.len()
    &&& digits_end(s, digits) == s.len()
}

/// Whether `s` from `from` to its end is digits with at most one point among them, at least
/// one digit in all, and then an optional exponent.
pub open spec fn is_number_at(s: Seq<char>, from: int) -> bool {
    let whole_end = digits_end(s, from);
    let pointed = whole_end < s.len() && s[whole_end] == '.';
    let mantissa_end = if pointed {
        digits_end(s, whole_end + 1)
    } else {
        whole_end
    };
    let digits = if pointed {
        mantissa_end - from - 1
    } else {
        mantissa_end - from
    };
    &&& digits > 0
    &&& (mantissa_end == s.len() || is_exponent_at(s, mantissa_end))
}

/// The grammar of a decimal: an optional sign, then `inf`, `infinity` or `nan` in any case,
/// or a number as [`is_number_at`] describes it.
pub open spec fn is_decimal(s: Seq<char>) -> bool {
    let from = if s.len() > 0 && is_sign(s[0]) {
        1int
    } else {
        0int
    };
    ||| is_word_at(s, from, "inf"@)
    ||| is_word_at(s, from, "infinity"@)
    ||| is_word_at(s, from, "nan"@)
    ||| is_number_at(s, from)
}

/// The end of the digits that start at `from`.
fn scan_digits(cs: &Vec<char>, from: usize) -> (end: usize)
    requires
        from <= cs.len(),
    ensures
        from <= end <= cs.len(),
        end == digits_end(cs@, from as int),
{
    let mut i: usize = from;
    while i < cs.len() && cs[i] as u32 >= 48 && cs[i] as u32 <= 57
        invariant
            from <= i <= cs.len(),
            digits_end(cs@, from as int) == digits_end(cs@, i as int),
        decreases cs.len() - i,
    {
        i += 1;
    }
    i
}

/// Whether `cs` from `from` on spells `word`, as [`is_word_at`] states.
fn word_at(cs: &Vec<char>, from: usize, word: &str) -> (r: bool)
    requires
        from <= cs.len(),
    ensures
        r == is_word_at(cs@, from as int, word@),
{
    let w = chars_of(word);
    if cs.len() - from != w.len() {
        return false;
    }
    let mut i: usize = 0;
    while i < w.len()
        invariant
            from <= cs.len(),
            cs.len() - from == w.len(),
            w@ == word@,
            i <= w.len(),
            forall|j: int| 0 <= j < i ==> same_letter(#[trigger] cs@[from + j], w@[j]),
        decreases w.len() - i,
    {
        let c = cs[from + i];
        let l = w[i];
        if !(c == l || (65 <= c as u32 && c as u32 <= 90 && c as u32 + 32 == l as u32)) {
            assert(!same_letter(cs@[from + i], w@[i as int]));
            return false;
        }
        i += 1;
    }
    true
}

/// Whether `cs` from `at` on is an exponent.
fn exponent_at(cs: &Vec<char>, at: usize) -> (r: bool)
    requires
        at < cs.len(),
    ensures
        r == is_exponent_at(cs@, at as int),
{
    if cs[at] != 'e' && cs[at] != 'E' {
        return false;
    }
    let digits = if at + 1 < cs.len() && (cs[at + 1] == '+' || cs[at + 1] == '-') {
        at + 2
    } else {
        at + 1
    };
    if digits >= cs.len() {
        return false;
    }
    scan_digits(cs, digits) == cs.len()
}

/// Whether `cs` from `from` on is a number.
fn number_at(cs: &Vec<char>, from: usize) -> (r: bool)
    requires
        from <= cs.len(),
    ensures
        r == is_number_at(cs@, from as int),
{
    let whole_end = scan_digits(cs, from);
    let pointed = whole_end < cs.len() && cs[whole_end] == '.';
    let mantissa_end = if pointed {
        scan_digits(cs, whole_end + 1)
    } else {
        whole_end
    };
    let digits = if pointed {
        mantissa_end - from - 1
    } else {
        mantissa_end - from
    };
    if digits == 0 {
        return false;
    }
    mantissa_end == cs.len() || exponent_at(cs, mantissa_end)
}

/// Whether `text` is a decimal.
pub fn is_decimal_text(text: &str) -> (r: bool)
    ensures
        r == is_decimal(text@),
{
    let cs = chars_of(text);
    let from: usize = if cs.len() > 0 && (cs[0] == '+' || cs[0] == '-') {
        1
    } else {
        0
    };
    word_at(&cs, from, "inf") || word_at(&cs, from, "infinity") || word_at(&cs, from, "nan")
        || number_at(&cs, from)
}

/// A number with a fraction, held as its spelling.
#[derive(Debug, PartialEq, Eq)]
pub struct Decimal {
    text: String,
}

impl View for Decimal {
    type V = Seq<char>;

    closed spec fn view(&self) -> Seq<char> {
        self.text@
    }
}

impl Clone for Decimal {
    fn clone(&self) -> (r: Self)
        ensures
            r@ == self@,
    {
        proof {
            use_type_invariant(self);
        }
        Decimal { text: self.text.clone() }
    }
}

/// `0` and `1` are decimals.
proof fn lemma_small_numbers()
    ensures
        is_decimal("0"@),
        is_decimal("1"@),
{
    reveal_strlit("0");
    reveal_strlit("1");
    reveal_with_fuel(digits_end, 3);
    assert(is_number_at("0"@, 0));
    assert(is_number_at("1"@, 0));
}

impl Decimal {
    /// Every decimal is spelled as the grammar asks.
    #[verifier::type_invariant]
    spec fn well_formed(self) -> bool {
        is_decimal(self.text@)
    }

    /// The decimal that `text` spells, if it spells one.
    pub fn parse(text: &str) -> (r: Option<Decimal>)
        ensures
            match r {
                Some(d) => is_decimal(text@) && d@ == text@,
                None => !is_decimal(text@),
            },
    {
        if is_decimal_text(text) {
            Some(Decimal { text: text.to_owned() })
        } else {
            None
        }
    }

    /// Nought, spelled `0`.
    pub fn zero() -> (d: Decimal)
        ensures
            d@ == "0"@,
    {
        proof {
            lemma_small_numbers();
        }
        Decimal { text: "0".to_owned() }
    }

    /// One, spelled `1`.
    pub fn one() -> (d: Decimal)
        ensures
            d@ == "1"@,
    {
        proof {
            lemma_small_numbers();
        }
        Decimal { text: "1".to_owned() }
    }

    /// The spelling, which is that of a decimal.
    pub fn as_str(&self) -> (s: &str)
        ensures
            s@ == self@,
            is_decimal(s@),
    {
        proof {
            use_type_invariant(self);
        }
        self.text.as_str()
    }
}

} // verus!
