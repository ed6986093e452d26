//! The terminal parsers for identifiers and signed 32-bit integer
//! literals.

use vstd::prelude::*;
use crate::context::{
    ParsingContext, digit_pred, ident_pred, is_alpha, is_alpha_char, is_ascii, is_ascii_char,
    is_digit, is_digit_char, is_ident, is_ident_char, is_keyword, lemma_run_len_is,
    lemma_stepped_trans, run_len, stepped, ws_pred,
};
use crate::parser::{Parser, ParserErr};
use vstd::string::StrSliceExecFns;

verus! {

/// Position and text attached to a number parse error; the positions are
/// not tracked yet and are reported as zero.
#[derive(Debug, PartialEq, Clone)]
pub struct ParseNumData(pub i32, pub i32, pub String);

/// How a signed-integer literal can fail to parse: no digits at all, a
/// digit outside the base (unreachable once the scan keeps to digits,
/// kept for totality), or a value outside the 32-bit signed range.
#[derive(Debug, PartialEq)]
pub enum NumberParseErr {
    InvalidNumber(ParseNumData),
    PosOverflow(ParseNumData),
    NegOverflow(ParseNumData),
    EmptyStr,
}

impl ParserErr for NumberParseErr {
    fn label(&self) -> String {
        "number".to_owned()
    }
}

/// Why an identifier failed to parse: an illegal character at the
/// position, the text was a reserved word, it held no alphabetic
/// character, or the input was empty.
#[derive(Debug, PartialEq, Clone, Copy)]
pub enum IdentParserErrReason {
    IllicitChar(char),
    FoundKeyword,
    NoAlphaNum,
    EmptyInp,
}

/// An identifier parse error: the offending text and the reason. The
/// row and column of the offence are not filled in yet and read zero.
#[derive(Debug)]
pub struct IdentParserErr {
    pub found: String,
    pub reason: IdentParserErrReason,
    pub row: usize,
    pub col: usize,
}

impl IdentParserErr {
    pub fn new(found: &str, reason: IdentParserErrReason) -> (r: Self)
        ensures
            r.found@ == found@,
            r.reason == reason,
    {
        Self { found: found.to_owned(), reason, row: 0, col: 0 }
    }
}

impl ParserErr for IdentParserErr {
    fn label(&self) -> String {
        "identifier".to_owned()
    }
}

/// The maximal identifier-shaped prefix of `s`.
pub open spec fn ident_len(s: Seq<char>) -> nat {
    run_len(s, ident_pred())
}

/// Some character of `s` is an ASCII letter.
pub open spec fn has_alpha(s: Seq<char>) -> bool {
    exists|i: int| 0 <= i < s.len() && is_alpha_char(#[trigger] s[i])
}

/// What the identifier parser accepts: a nonempty identifier-shaped
/// prefix that does not start with a digit, ends at the input's end or
/// at an ASCII boundary character, contains at least one letter, and is
/// not a reserved word.
pub open spec fn ident_valid(s: Seq<char>) -> bool {
    let n = ident_len(s) as int;
    &&& n > 0
    &&& !is_digit_char(s[0])
    &&& (n == s.len() || is_ascii_char(s[n]))
    &&& has_alpha(s.take(n))
    &&& !is_keyword(s.take(n))
}

/// Maximal-munch identifier parser over ASCII letters, digits and
/// underscore.
pub struct IdentParser;

impl Parser for IdentParser {
    type Output = String;

    type PErr = IdentParserErr;

    /// Succeeds exactly on `ident_valid` input, returning the munched
    /// prefix and consuming it together with trailing whitespace. Each
    /// failure reason comes on exactly the inputs described: a leading
    /// digit or a non-ASCII character at the munch boundary (nothing
    /// consumed), nothing identifier-shaped to munch (nothing consumed),
    /// no alphabetic character or a reserved word (munch and trailing
    /// whitespace consumed, as on success).
    open spec fn post(
        &self,
        prev: ParsingContext,
        next: ParsingContext,
        r: Result<Self::Output, Self::PErr>,
    ) -> bool {
        let s = prev.remaining();
        let n = ident_len(s) as int;
        let consumed = stepped(
            prev,
            next,
            (n + run_len(s.skip(n), ws_pred())) as nat,
        );
        match r {
            Ok(name) => {
                &&& ident_valid(s)
                &&& name@ == s.take(n)
                &&& consumed
            },
            Err(e) => match e.reason {
                IdentParserErrReason::IllicitChar(c) => {
                    &&& next == prev
                    &&& {
                        ||| (s.len() > 0 && is_digit_char(s[0]) && c == s[0] && e.found@
                            == Seq::<char>::empty())
                        ||| (n > 0 && !is_digit_char(s[0]) && n < s.len() && !is_ascii_char(s[n])
                            && c == s[n] && e.found@ == s.take(n))
                    }
                },
                IdentParserErrReason::EmptyInp => {
                    &&& next == prev
                    &&& n == 0
                    &&& (s.len() == 0 || !is_digit_char(s[0]))
                    &&& e.found@ == Seq::<char>::empty()
                },
                IdentParserErrReason::NoAlphaNum => {
                    &&& consumed
                    &&& n > 0
                    &&& !is_digit_char(s[0])
                    &&& (n == s.len() || is_ascii_char(s[n]))
                    &&& !has_alpha(s.take(n))
                    &&& e.found@ == s.take(n)
                },
                IdentParserErrReason::FoundKeyword => {
                    &&& consumed
                    &&& n > 0
                    &&& !is_digit_char(s[0])
                    &&& (n == s.len() || is_ascii_char(s[n]))
                    &&& has_alpha(s.take(n))
                    &&& is_keyword(s.take(n))
                    &&& e.found@ == s.take(n)
                },
            },
        }
    }

    #[verifier::loop_isolation(false)]
    fn parse(&self, ctx: &mut ParsingContext) -> (r: Result<Self::Output, Self::PErr>) {
        let ghost prev = *ctx;
        let rem_len = ctx.cursor.unicode_len();
        proof {
            reveal_strlit("");
            assert(""@ =~= Seq::<char>::empty());
        }
        // The maximal identifier-shaped prefix.
        let mut n: usize = 0;
        let mut stop = false;
        while n < rem_len && !stop
            invariant
                n <= rem_len,
                forall|j: int| 0 <= j < n ==> is_ident_char(prev.remaining()[j]),
                stop ==> n < rem_len && !is_ident_char(prev.remaining()[n as int]),
            decreases rem_len - n + (if stop { 0int } else { 1int }),
        {
            let c = ctx.cursor.get_char(n);
            if is_ident(c) {
                n = n + 1;
            } else {
                stop = true;
            }
        }
        proof {
            lemma_run_len_is(prev.remaining(), ident_pred(), n as int);
        }
        if rem_len > 0 {
            let first = ctx.cursor.get_char(0);
            if is_digit(first) {
                return Err(IdentParserErr::new("", IdentParserErrReason::IllicitChar(first)));
            }
        }
        if n == 0 {
            return Err(IdentParserErr::new("", IdentParserErrReason::EmptyInp));
        }
        let name = ctx.cursor.substring_char(0, n);
        proof {
            assert(name@ =~= prev.remaining().take(n as int));
        }
        if n < rem_len {
            let boundary = ctx.cursor.get_char(n);
            if !is_ascii(boundary) {
                return Err(
                    IdentParserErr::new(name, IdentParserErrReason::IllicitChar(boundary)),
                );
            }
        }
        ctx.advance(n);
        let ghost mid = *ctx;
        ctx.eat_ws();
        proof {
            lemma_stepped_trans(prev, mid, *ctx, n as nat, run_len(mid.cursor@, ws_pred()));
        }
        // The munched text must contain a letter and must not be a
        // reserved word.
        let mut found_alpha = false;
        let mut j: usize = 0;
        while j < n && !found_alpha
            invariant
                j <= n,
                n <= name@.len(),
                !found_alpha ==> forall|i: int| 0 <= i < j ==> !is_alpha_char(name@[i]),
                found_alpha ==> has_alpha(name@),
            decreases n - j + (if found_alpha { 0int } else { 1int }),
        {
            let c = name.get_char(j);
            if is_alpha(c) {
                proof {
                    assert(is_alpha_char(name@[j as int]));
                }
                found_alpha = true;
            } else {
                j = j + 1;
            }
        }
        if !found_alpha {
            proof {
                assert(name@.len() == n);
                assert(!has_alpha(name@));
            }
            return Err(IdentParserErr::new(name, IdentParserErrReason::NoAlphaNum));
        }
        if ctx.contains_keyword(name) {
            return Err(IdentParserErr::new(name, IdentParserErrReason::FoundKeyword));
        }
        Ok(name.to_owned())
    }
}

/// The decimal value of a digit string.
pub open spec fn dec_value(s: Seq<char>) -> int
    decreases s.len(),
{
    if s.len() == 0 {
        0
    } else {
        dec_value(s.drop_last()) * 10 + (s.last() as u32 - 48)
    }
}

/// Whether the literal at the head of `s` is negative.
pub open spec fn num_neg(s: Seq<char>) -> bool {
    s.len() > 0 && s[0] == '-'
}

/// The digit run of the literal at the head of `s`, after an optional
/// leading minus sign.
pub open spec fn num_digits(s: Seq<char>) -> Seq<char> {
    if num_neg(s) {
        s.skip(1).take(run_len(s.skip(1), digit_pred()) as int)
    } else {
        s.take(run_len(s, digit_pred()) as int)
    }
}

/// The number of characters the literal at the head of `s` occupies.
pub open spec fn num_len(s: Seq<char>) -> int {
    if num_neg(s) {
        1 + num_digits(s).len() as int
    } else {
        num_digits(s).len() as int
    }
}

/// The mathematical value of the literal at the head of `s`.
pub open spec fn num_value(s: Seq<char>) -> int {
    if num_neg(s) {
        -dec_value(num_digits(s))
    } else {
        dec_value(num_digits(s))
    }
}

/// Maximal-munch parser for a signed decimal 32-bit integer literal: an
/// optional minus sign followed by ASCII digits.
pub struct NumberParser {}

impl Parser for NumberParser {
    type Output = i32;

    type PErr = NumberParseErr;

    /// Succeeds exactly when at least one digit was munched and the
    /// literal's mathematical value fits in 32 signed bits, returning
    /// exactly that value and consuming the literal and trailing
    /// whitespace. No digits (including a lone minus sign) consume
    /// nothing; a value out of range reports the direction of the
    /// overflow and the offending text, with the literal consumed.
    open spec fn post(
        &self,
        prev: ParsingContext,
        next: ParsingContext,
        r: Result<Self::Output, Self::PErr>,
    ) -> bool {
        let s = prev.remaining();
        let consumed = stepped(
            prev,
            next,
            (num_len(s) + run_len(s.skip(num_len(s)), ws_pred())) as nat,
        );
        match r {
            Ok(v) => {
                &&& num_digits(s).len() > 0
                &&& i32::MIN <= num_value(s) <= i32::MAX
                &&& v == num_value(s)
                &&& consumed
            },
            Err(NumberParseErr::EmptyStr) => {
                &&& next == prev
                &&& num_digits(s).len() == 0
            },
            Err(NumberParseErr::PosOverflow(d)) => {
                &&& !num_neg(s)
                &&& num_digits(s).len() > 0
                &&& num_value(s) > i32::MAX
                &&& d.0 == 0 && d.1 == 0 && d.2@ == s.take(num_len(s))
                &&& consumed
            },
            Err(NumberParseErr::NegOverflow(d)) => {
                &&& num_neg(s)
                &&& num_digits(s).len() > 0
                &&& num_value(s) < i32::MIN
                &&& d.0 == 0 && d.1 == 0 && d.2@ == s.take(num_len(s))
                &&& consumed
            },
            Err(NumberParseErr::InvalidNumber(_)) => false,
        }
    }

    #[verifier::loop_isolation(false)]
    fn parse(&self, ctx: &mut ParsingContext) -> (r: Result<Self::Output, Self::PErr>) {
        let ghost prev = *ctx;
        let rem_len = ctx.cursor.unicode_len();
        let mut neg = false;
        if rem_len > 0 {
            let first = ctx.cursor.get_char(0);
            if first == '-' {
                neg = true;
            }
        }
        let start: usize = if neg {
            1
        } else {
            0
        };
        let ghost tail = if neg {
            prev.remaining().skip(1)
        } else {
            prev.remaining()
        };
        // The digit run after the optional sign.
        let mut n: usize = start;
        let mut stop = false;
        while n < rem_len && !stop
            invariant
                start <= n <= rem_len,
                forall|j: int| 0 <= j < n - start ==> is_digit_char(tail[j]),
                stop ==> n < rem_len && !is_digit_char(tail[n - start]),
                tail.len() == rem_len - start,
            decreases rem_len - n + (if stop { 0int } else { 1int }),
        {
            let c = ctx.cursor.get_char(n);
            if is_digit(c) {
                n = n + 1;
            } else {
                stop = true;
            }
        }
        proof {
            lemma_run_len_is(tail, digit_pred(), n - start);
            assert(num_digits(prev.remaining()) =~= tail.take(n - start));
        }
        let n_digits = n - start;
        if n_digits == 0 {
            return Err(NumberParseErr::EmptyStr);
        }
        let text = ctx.cursor.substring_char(0, n);
        proof {
            assert(text@ =~= prev.remaining().take(n as int));
        }
        ctx.advance(n);
        let ghost mid = *ctx;
        ctx.eat_ws();
        proof {
            lemma_stepped_trans(prev, mid, *ctx, n as nat, run_len(mid.cursor@, ws_pred()));
        }
        // Accumulate the digits, stopping the accumulator once the value
        // has left the 32-bit range: further digits only push it further
        // out.
        let ghost digits = num_digits(prev.remaining());
        proof {
            assert(digits.len() == n_digits);
            assert forall|i: int| 0 <= i < digits.len() implies is_digit_char(digits[i]) by {
                assert(digits[i] == tail[i]);
            }
            assert forall|i: int| 0 <= i < digits.len() implies text@[start + i] == digits[i] by {
                assert(digits[i] == tail[i]);
                assert(tail[i] == prev.remaining()[start + i]);
            }
        }
        let mut acc: i64 = 0;
        let mut over = false;
        let mut j: usize = 0;
        while j < n_digits
            invariant
                j <= n_digits,
                !over ==> acc == dec_value(digits.take(j as int)) && 0 <= acc <= 2147483648i64,
                over ==> dec_value(digits.take(j as int)) > 2147483648,
            decreases n_digits - j,
        {
            let c = text.get_char(start + j);
            proof {
                assert(c == digits[j as int]);
                assert(is_digit_char(c));
                assert(digits.take(j + 1).drop_last() =~= digits.take(j as int));
                assert(digits.take(j + 1).last() == digits[j as int]);
            }
            let d: i64 = (c as u32 - 48) as i64;
            if !over {
                acc = acc * 10 + d;
                if acc > 2147483648i64 {
                    over = true;
                }
            } else {
                proof {
                    assert(dec_value(digits.take(j + 1)) == dec_value(digits.take(j as int)) * 10
                        + (digits[j as int] as u32 - 48));
                }
            }
            j = j + 1;
        }
        proof {
            assert(digits.take(n_digits as int) =~= digits);
        }
        let data = ParseNumData(0, 0, text.to_owned());
        if neg {
            if over {
                Err(NumberParseErr::NegOverflow(data))
            } else if acc == 2147483648i64 {
                Ok(i32::MIN)
            } else {
                Ok(0i32 - (acc as i32))
            }
        } else {
            if over || acc > 2147483647i64 {
                Err(NumberParseErr::PosOverflow(data))
            } else {
                Ok(acc as i32)
            }
        }
    }
}

} // verus!
