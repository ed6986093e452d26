//! Structural combinators: transactional attempt, total option,
//! zero-or-more repetition, separated lists, ordered choice, and the
//! character / exact-string terminals.

use vstd::prelude::*;
use crate::context::{
    ParsingContext, is_keyword, is_ident, is_ident_char, run_len, stepped, ws_pred,
    lemma_stepped_trans, str_eq,
};
use crate::parser::{Parser, ParserErr};
use vstd::string::StrSliceExecFns;

verus! {

/// A parser which attempts the parser inside, rolling back the context
/// if it fails, so that a failed attempt consumes no input.
pub struct AttemptParser<P> {
    pub inside: P,
}

impl<P> AttemptParser<P> {
    pub fn new(inside: P) -> (r: Self)
        ensures
            r.inside == inside,
    {
        Self { inside }
    }
}

impl<P: Parser> Parser for AttemptParser<P> {
    type Output = P::Output;

    type PErr = P::PErr;

    /// On success this is exactly the inside parser; on failure the
    /// inside parser's error is forwarded but the context is fully
    /// restored: index, row, column and remaining-input view.
    open spec fn post(
        &self,
        prev: ParsingContext,
        next: ParsingContext,
        r: Result<Self::Output, Self::PErr>,
    ) -> bool {
        match r {
            Ok(v) => self.inside.post(prev, next, Ok(v)),
            Err(e) => next == prev && exists|mid: ParsingContext, e2: P::PErr|
                {
                    &&& #[trigger] self.inside.post(prev, mid, Err(e2))
                    &&& e2 == e
                },
        }
    }

    fn parse(&self, ctx: &mut ParsingContext) -> (r: Result<Self::Output, Self::PErr>) {
        let ghost prev = *ctx;
        let st = ctx.current_state();
        match self.inside.parse(ctx) {
            Ok(v) => Ok(v),
            Err(e) => {
                let ghost mid = *ctx;
                ctx.roll_back_op(st);
                proof {
                    assert(*ctx == prev);
                    assert(self.inside.post(prev, mid, Err(e)));
                }
                Err(e)
            },
        }
    }
}

/// Possibly parses what the inside parser parses. A failed inside parse
/// is rolled back and reported as `None`: this parser itself never fails.
pub struct OptionParser<P> {
    pub inside: P,
}

impl<P: Parser> OptionParser<P> {
    pub fn new(inside: P) -> (r: Self)
        ensures
            r.inside == inside,
    {
        Self { inside }
    }

    /// Like `parse`, but directly as an `Option`: sound because an
    /// option parser never returns an error.
    pub fn parse_to_option(&self, ctx: &mut ParsingContext) -> (r: Option<P::Output>)
        requires
            old(ctx).wf(),
        ensures
            final(ctx).wf(),
            final(ctx).input == old(ctx).input,
            final(ctx).keywords == old(ctx).keywords,
            old(ctx).index <= final(ctx).index,
            match r {
                Some(v) => self.inside.post(*old(ctx), *final(ctx), Ok(v)),
                None => *final(ctx) == *old(ctx) && failed_attempt(&self.inside, *old(ctx)),
            },
    {
        self.parse(ctx).unwrap()
    }
}

impl<P: Parser> Parser for OptionParser<P> {
    type Output = Option<P::Output>;

    type PErr = ();

    /// An option parser never fails: success of the inside parser
    /// yields `Some` with its effect; `None` comes only from a failing
    /// run of the inside parser, which is rolled back so that the
    /// context is fully restored.
    open spec fn post(
        &self,
        prev: ParsingContext,
        next: ParsingContext,
        r: Result<Self::Output, Self::PErr>,
    ) -> bool {
        match r {
            Ok(Some(v)) => self.inside.post(prev, next, Ok(v)),
            Ok(None) => next == prev && failed_attempt(&self.inside, prev),
            Err(_) => false,
        }
    }

    fn parse(&self, ctx: &mut ParsingContext) -> (r: Result<Self::Output, Self::PErr>) {
        let ghost prev = *ctx;
        let st = ctx.current_state();
        match self.inside.parse(ctx) {
            Ok(v) => Ok(Some(v)),
            Err(e) => {
                let ghost mid = *ctx;
                ctx.roll_back_op(st);
                proof {
                    assert(*ctx == prev);
                    assert(self.inside.post(prev, mid, Err(e)));
                }
                Ok(None)
            },
        }
    }
}

/// How a single-character match can fail: the input was empty, or the
/// next character was not the expected one (expected, found).
#[derive(Debug, PartialEq)]
pub enum CharParseErr {
    CharMismatch(char, char),
    Empty,
}

impl ParserErr for CharParseErr {
    fn label(&self) -> String {
        "character".to_owned()
    }
}

/// Parses exactly the char inside; does not consume whitespace after it.
pub struct RawCharParser(pub char);

impl RawCharParser {
    pub fn new(ch: char) -> (r: Self)
        ensures
            r.0 == ch,
    {
        Self(ch)
    }
}

impl Parser for RawCharParser {
    type Output = char;

    type PErr = CharParseErr;

    /// Succeeds exactly when the remaining input starts with the
    /// expected character, consuming that one character; a failure
    /// consumes nothing and reports what was found instead.
    open spec fn post(
        &self,
        prev: ParsingContext,
        next: ParsingContext,
        r: Result<Self::Output, Self::PErr>,
    ) -> bool {
        match r {
            Ok(c) => {
                &&& c == self.0
                &&& prev.remaining().len() > 0
                &&& prev.remaining()[0] == self.0
                &&& stepped(prev, next, 1)
            },
            Err(CharParseErr::Empty) => prev.remaining().len() == 0 && next == prev,
            Err(CharParseErr::CharMismatch(exp, found)) => {
                &&& exp == self.0
                &&& prev.remaining().len() > 0
                &&& prev.remaining()[0] == found
                &&& found != self.0
                &&& next == prev
            },
        }
    }

    fn parse(&self, ctx: &mut ParsingContext) -> (r: Result<Self::Output, Self::PErr>) {
        match ctx.peek_char() {
            None => Err(CharParseErr::Empty),
            Some(c) => {
                if c == self.0 {
                    ctx.advance(1);
                    Ok(c)
                } else {
                    Err(CharParseErr::CharMismatch(self.0, c))
                }
            },
        }
    }
}

/// Parses a char and eats whitespace afterwards.
pub struct CharParser(pub char);

impl CharParser {
    pub fn new(ch: char) -> (r: Self)
        ensures
            r.0 == ch,
    {
        Self(ch)
    }
}

impl Parser for CharParser {
    type Output = char;

    type PErr = CharParseErr;

    /// Succeeds exactly when the remaining input starts with the
    /// expected character, consuming it together with the whitespace
    /// that follows; a failure consumes nothing.
    open spec fn post(
        &self,
        prev: ParsingContext,
        next: ParsingContext,
        r: Result<Self::Output, Self::PErr>,
    ) -> bool {
        match r {
            Ok(c) => {
                &&& c == self.0
                &&& prev.remaining().len() > 0
                &&& prev.remaining()[0] == self.0
                &&& stepped(
                    prev,
                    next,
                    1 + run_len(prev.remaining().skip(1), ws_pred()),
                )
            },
            Err(CharParseErr::Empty) => prev.remaining().len() == 0 && next == prev,
            Err(CharParseErr::CharMismatch(exp, found)) => {
                &&& exp == self.0
                &&& prev.remaining().len() > 0
                &&& prev.remaining()[0] == found
                &&& found != self.0
                &&& next == prev
            },
        }
    }

    fn parse(&self, ctx: &mut ParsingContext) -> (r: Result<Self::Output, Self::PErr>) {
        let ghost prev = *ctx;
        match RawCharParser::new(self.0).parse(ctx) {
            Ok(c) => {
                let ghost mid = *ctx;
                ctx.eat_ws();
                proof {
                    lemma_stepped_trans(
                        prev,
                        mid,
                        *ctx,
                        1,
                        run_len(mid.cursor@, ws_pred()),
                    );
                }
                Ok(c)
            },
            Err(e) => Err(e),
        }
    }
}

/// How an exact-string match can fail: the found text differed from
/// the expected one. `NotEnoughInput` is reserved for a too-short
/// comparison; string matching reports that case as a mismatch carrying
/// the whole remaining text, so the variant is never produced.
#[derive(Debug, PartialEq)]
pub enum StringParseErr {
    StringMismatch(&'static str, String),
    NotEnoughInput,
}

impl ParserErr for StringParseErr {
    fn label(&self) -> String {
        "string".to_owned()
    }
}

/// Parses a string exactly equal to `expected` (case-sensitive) and does
/// not consume whitespace after it. On a mismatch the compared characters
/// stay consumed; wrap in `AttemptParser` to undo that. When fewer
/// characters than the expected string remain, nothing is consumed and
/// the mismatch reports the whole remaining text.
pub struct RawStringParser {
    pub expected: &'static str,
}

impl RawStringParser {
    pub fn new(expected: &'static str) -> (r: Self)
        ensures
            r.expected == expected,
    {
        Self { expected }
    }
}

impl Parser for RawStringParser {
    type Output = &'static str;

    type PErr = StringParseErr;

    /// Succeeds exactly when the remaining input is long enough and its
    /// prefix is the expected string, consuming that prefix. A mismatch
    /// still consumes the compared prefix and reports it; too-short
    /// input consumes nothing and the mismatch reports the whole
    /// remaining text.
    open spec fn post(
        &self,
        prev: ParsingContext,
        next: ParsingContext,
        r: Result<Self::Output, Self::PErr>,
    ) -> bool {
        let m = self.expected@.len() as int;
        match r {
            Ok(s) => {
                &&& s == self.expected
                &&& prev.remaining().len() >= m
                &&& prev.remaining().take(m) == self.expected@
                &&& stepped(prev, next, m as nat)
            },
            Err(StringParseErr::NotEnoughInput) => false,
            Err(StringParseErr::StringMismatch(exp, found)) => {
                &&& exp == self.expected
                &&& {
                    ||| (prev.remaining().len() >= m && prev.remaining().take(m)
                        != self.expected@ && found@ == prev.remaining().take(m) && stepped(
                        prev,
                        next,
                        m as nat,
                    ))
                    ||| (prev.remaining().len() < m && found@ == prev.remaining() && next
                        == prev)
                }
            },
        }
    }

    fn parse(&self, ctx: &mut ParsingContext) -> (r: Result<Self::Output, Self::PErr>) {
        let ghost prev = *ctx;
        let m = self.expected.unicode_len();
        if m == 0 {
            proof {
                assert(prev.cursor@.skip(0) =~= prev.cursor@);
                assert(prev.cursor@.take(0) =~= self.expected@);
            }
            return Ok(self.expected);
        }
        match ctx.eat_many(m) {
            None => Err(StringParseErr::StringMismatch(self.expected, ctx.cursor.to_owned())),
            Some(s) => {
                if str_eq(s, self.expected) {
                    Ok(self.expected)
                } else {
                    Err(StringParseErr::StringMismatch(self.expected, s.to_owned()))
                }
            },
        }
    }
}

/// Matches a fixed string, keyword-aware: when the expected string is a
/// reserved word, the match additionally fails if an identifier
/// continuation character follows (what looked like the keyword is then
/// really a longer identifier). Skips trailing whitespace on success,
/// and consumes nothing on failure.
pub struct StringParser {
    pub expected: &'static str,
}

impl StringParser {
    pub fn new(expected: &'static str) -> (r: Self)
        ensures
            r.expected == expected,
    {
        Self { expected }
    }
}

impl Parser for StringParser {
    type Output = &'static str;

    type PErr = StringParseErr;

    /// Succeeds exactly when the remaining input starts with the
    /// expected string and, for a keyword, the match ends at a
    /// non-identifier boundary; it consumes the match and the
    /// whitespace after it. Every failure leaves the context unchanged,
    /// and the keyword-continuation failure reports the extended
    /// found-text.
    open spec fn post(
        &self,
        prev: ParsingContext,
        next: ParsingContext,
        r: Result<Self::Output, Self::PErr>,
    ) -> bool {
        let m = self.expected@.len() as int;
        match r {
            Ok(s) => {
                &&& s == self.expected
                &&& prev.remaining().len() >= m
                &&& prev.remaining().take(m) == self.expected@
                &&& (is_keyword(self.expected@) ==> (prev.remaining().len() == m
                    || !is_ident_char(prev.remaining()[m])))
                &&& stepped(
                    prev,
                    next,
                    (m + run_len(prev.remaining().skip(m), ws_pred())) as nat,
                )
            },
            Err(StringParseErr::NotEnoughInput) => false,
            Err(StringParseErr::StringMismatch(exp, found)) => {
                &&& next == prev
                &&& exp == self.expected
                &&& {
                    ||| (prev.remaining().len() >= m && prev.remaining().take(m)
                        != self.expected@ && found@ == prev.remaining().take(m))
                    ||| (prev.remaining().len() < m && found@ == prev.remaining())
                    ||| (is_keyword(self.expected@) && prev.remaining().len() > m
                        && prev.remaining().take(m) == self.expected@ && is_ident_char(
                        prev.remaining()[m],
                    ) && found@ == prev.remaining().take(m + 1))
                }
            },
        }
    }

    fn parse(&self, ctx: &mut ParsingContext) -> (r: Result<Self::Output, Self::PErr>) {
        let ghost prev = *ctx;
        let st = ctx.current_state();
        let m = self.expected.unicode_len();
        match RawStringParser::new(self.expected).parse(ctx) {
            Err(e) => {
                let ghost mid = *ctx;
                ctx.roll_back_op(st);
                proof {
                    assert(*ctx == prev);
                }
                Err(e)
            },
            Ok(s) => {
                let ghost mid = *ctx;
                if ctx.contains_keyword(self.expected) {
                    match ctx.peek_char() {
                        Some(c) if is_ident(c) => {
                            let found = st.3.substring_char(0, m + 1).to_owned();
                            ctx.roll_back_op(st);
                            proof {
                                assert(*ctx == prev);
                                assert(found@ =~= prev.remaining().take(m + 1));
                            }
                            Err(StringParseErr::StringMismatch(self.expected, found))
                        },
                        _ => {
                            ctx.eat_ws();
                            proof {
                                lemma_stepped_trans(
                                    prev,
                                    mid,
                                    *ctx,
                                    m as nat,
                                    run_len(mid.cursor@, ws_pred()),
                                );
                            }
                            Ok(s)
                        },
                    }
                } else {
                    ctx.eat_ws();
                    proof {
                        lemma_stepped_trans(
                            prev,
                            mid,
                            *ctx,
                            m as nat,
                            run_len(mid.cursor@, ws_pred()),
                        );
                    }
                    Ok(s)
                }
            },
        }
    }
}

/// Ordered choice between two parsers producing the same output type:
/// perform the first, and if it fails, the second. A failing variant's
/// consumption is not rolled back; wrap variants in `AttemptParser`
/// where rollback is wanted. The variants' own errors are collapsed
/// into an uninformative unit error.
pub struct AlternativeParser<P1, P2> {
    pub first: P1,
    pub second: P2,
}

impl<P1, P2> AlternativeParser<P1, P2> {
    pub fn new(first: P1, second: P2) -> (r: Self)
        ensures
            r.first == first,
            r.second == second,
    {
        Self { first, second }
    }
}

impl<P1: Parser, P2: Parser<Output = P1::Output>> Parser for AlternativeParser<P1, P2> {
    type Output = P1::Output;

    type PErr = ();

    /// Success came from the first variant, or from the second after
    /// the first failed; failure means both failed in order.
    open spec fn post(
        &self,
        prev: ParsingContext,
        next: ParsingContext,
        r: Result<Self::Output, Self::PErr>,
    ) -> bool {
        match r {
            Ok(v) => self.first.post(prev, next, Ok(v)) || exists|
                mid: ParsingContext,
                e1: P1::PErr,
                v2: P1::Output,
            |
                {
                    &&& #[trigger] self.first.post(prev, mid, Err(e1))
                    &&& #[trigger] self.second.post(mid, next, Ok(v2))
                    &&& v2 == v
                },
            Err(_) => exists|mid: ParsingContext, e1: P1::PErr, e2: P2::PErr|
                {
                    &&& #[trigger] self.first.post(prev, mid, Err(e1))
                    &&& #[trigger] self.second.post(mid, next, Err(e2))
                },
        }
    }

    fn parse(&self, ctx: &mut ParsingContext) -> (r: Result<Self::Output, Self::PErr>) {
        let ghost prev = *ctx;
        match self.first.parse(ctx) {
            Ok(v) => Ok(v),
            Err(e1) => {
                let ghost mid = *ctx;
                match self.second.parse(ctx) {
                    Ok(v) => {
                        proof {
                            assert(self.first.post(prev, mid, Err(e1)));
                            assert(self.second.post(mid, *ctx, Ok(v)));
                        }
                        Ok(v)
                    },
                    Err(e2) => {
                        proof {
                            assert(self.first.post(prev, mid, Err(e1)));
                            assert(self.second.post(mid, *ctx, Err(e2)));
                        }
                        Err(())
                    },
                }
            },
        }
    }
}

/// There is a failing run of `p` from the state `at`: used to state
/// that a repetition stopped because one more attempt would fail.
pub open spec fn failed_attempt<P: Parser>(p: &P, at: ParsingContext) -> bool {
    exists|mid: ParsingContext, e: P::PErr| #[trigger] p.post(at, mid, Err(e))
}

/// `outs` were parsed by `n = outs.len()` consecutive successful runs of
/// `p`, the first starting at `prev` and the last ending at `next`.
pub open spec fn parses_seq<P: Parser>(
    p: &P,
    prev: ParsingContext,
    next: ParsingContext,
    outs: Seq<P::Output>,
) -> bool
    decreases outs.len(),
{
    if outs.len() == 0 {
        next == prev
    } else {
        exists|mid: ParsingContext|
            {
                &&& parses_seq(p, prev, mid, outs.drop_last())
                &&& #[trigger] p.post(mid, next, Ok(outs.last()))
            }
    }
}

/// `outs` were parsed as `p (d p)*`: successful runs of `p` from `prev`
/// to `next`, each neighbouring pair separated by one successful run of
/// the delimiter `d`. An empty `outs` means `next == prev`.
pub open spec fn sep_chain<P: Parser, D: Parser>(
    p: &P,
    d: &D,
    prev: ParsingContext,
    next: ParsingContext,
    outs: Seq<P::Output>,
) -> bool
    decreases outs.len(),
{
    if outs.len() == 0 {
        next == prev
    } else if outs.len() == 1 {
        p.post(prev, next, Ok(outs[0]))
    } else {
        exists|m1: ParsingContext, m2: ParsingContext, dv: D::Output|
            {
                &&& sep_chain(p, d, prev, m1, outs.drop_last())
                &&& #[trigger] d.post(m1, m2, Ok(dv))
                &&& #[trigger] p.post(m2, next, Ok(outs.last()))
            }
    }
}

/// One more run of `p` from `at` would succeed without consuming any
/// input: a repetition that stopped here would otherwise never advance.
pub open spec fn stalls<P: Parser>(p: &P, at: ParsingContext) -> bool {
    exists|mid: ParsingContext, v: P::Output|
        {
            &&& #[trigger] p.post(at, mid, Ok(v))
            &&& mid.index == at.index
        }
}

/// One more delimiter-then-element round from `at` would succeed without
/// consuming any input.
pub open spec fn pair_stalls<P: Parser, D: Parser>(p: &P, d: &D, at: ParsingContext) -> bool {
    exists|m1: ParsingContext, m2: ParsingContext, dv: D::Output, v: P::Output|
        {
            &&& #[trigger] d.post(at, m1, Ok(dv))
            &&& #[trigger] p.post(m1, m2, Ok(v))
            &&& m2.index == at.index
        }
}

/// Parses zero or more instances of the inside parser, by repeating it
/// until it fails; the failed final attempt is rolled back, so a many
/// parser cannot itself fail. An attempt that succeeds without consuming
/// input also stops (and is rolled back): repeating it would never
/// advance the position.
pub struct ManyParser<P> {
    pub inside: P,
}

impl<P> ManyParser<P> {
    pub fn new(inside: P) -> (r: Self)
        ensures
            r.inside == inside,
    {
        Self { inside }
    }
}

impl<P: Parser> Parser for ManyParser<P> {
    type Output = Vec<P::Output>;

    type PErr = ();

    /// Never fails. A result of length `n` means the inside parser
    /// succeeded exactly `n` consecutive times from the entry position,
    /// chaining from `prev` to `next`; one further attempt from `next`
    /// would either fail or consume nothing, and was rolled back.
    open spec fn post(
        &self,
        prev: ParsingContext,
        next: ParsingContext,
        r: Result<Self::Output, Self::PErr>,
    ) -> bool {
        match r {
            Ok(v) => {
                &&& parses_seq(&self.inside, prev, next, v@)
                &&& (failed_attempt(&self.inside, next) || stalls(&self.inside, next))
            },
            Err(_) => false,
        }
    }

    #[verifier::loop_isolation(false)]
    fn parse(&self, ctx: &mut ParsingContext) -> (r: Result<Self::Output, Self::PErr>) {
        let ghost entry = *ctx;
        let mut res: Vec<P::Output> = Vec::new();
        loop
            invariant
                ctx.wf(),
                ctx.input == entry.input,
                ctx.keywords == entry.keywords,
                entry.index <= ctx.index,
                parses_seq(&self.inside, entry, *ctx, res@),
            decreases ctx.input@.len() - ctx.index,
        {
            let st = ctx.current_state();
            let ghost before = *ctx;
            match self.inside.parse(ctx) {
                Ok(v) => {
                    if ctx.index == st.2 {
                        // A zero-width success: roll it back and stop,
                        // or the repetition would never end.
                        let ghost mid = *ctx;
                        ctx.roll_back_op(st);
                        proof {
                            assert(*ctx == before);
                            assert(self.inside.post(*ctx, mid, Ok(v)));
                        }
                        return Ok(res);
                    }
                    proof {
                        assert(self.inside.post(before, *ctx, Ok(v)));
                        assert((res@.push(v)).drop_last() =~= res@);
                        assert((res@.push(v)).last() == v);
                        assert(parses_seq(&self.inside, entry, *ctx, res@.push(v)));
                    }
                    res.push(v);
                },
                Err(e) => {
                    let ghost mid = *ctx;
                    ctx.roll_back_op(st);
                    proof {
                        assert(*ctx == before);
                        assert(self.inside.post(*ctx, mid, Err(e)));
                    }
                    return Ok(res);
                },
            }
        }
    }
}

/// Parses zero or more instances of the inside parser separated by the
/// delimiter. A missing first element is a success with an empty list;
/// a delimiter without an element after it is a hard error, because a
/// dangling delimiter signals malformed input.
pub struct SepByParser<P, Del> {
    pub inside: P,
    pub delimiter: Del,
}

impl<P, Del> SepByParser<P, Del> {
    pub fn new(inside: P, delimiter: Del) -> (r: Self)
        ensures
            r.inside == inside,
            r.delimiter == delimiter,
    {
        Self { inside, delimiter }
    }
}

impl<P: Parser, Del: Parser> Parser for SepByParser<P, Del> {
    type Output = Vec<P::Output>;

    type PErr = P::PErr;

    /// On success the elements chain as `p (d p)*`. With no element, an
    /// element attempt failed (or was zero-width) at the unchanged entry
    /// position. With elements, either a delimiter attempt failed at
    /// `next`, or a delimiter succeeded and the element after it was
    /// zero-width, the repetition stopping before it. The only failure
    /// is the dangling delimiter: a chain, then a delimiter ending at
    /// `next`, then a failed element attempt from `next`, whose error
    /// is returned.
    open spec fn post(
        &self,
        prev: ParsingContext,
        next: ParsingContext,
        r: Result<Self::Output, Self::PErr>,
    ) -> bool {
        match r {
            Ok(v) => {
                if v@.len() == 0 {
                    &&& next == prev
                    &&& (failed_attempt(&self.inside, next) || stalls(&self.inside, next))
                } else {
                    ||| (sep_chain(&self.inside, &self.delimiter, prev, next, v@)
                        && failed_attempt(&self.delimiter, next))
                    ||| exists|a1: ParsingContext, dv: Del::Output|
                        {
                            &&& #[trigger] sep_chain(&self.inside, &self.delimiter, prev, a1, v@)
                            &&& #[trigger] self.delimiter.post(a1, next, Ok(dv))
                            &&& stalls(&self.inside, next)
                        }
                }
            },
            Err(e) => exists|
                outs: Seq<P::Output>,
                a1: ParsingContext,
                dv: Del::Output,
                mid: ParsingContext,
                e2: P::PErr,
            |
                {
                    &&& #[trigger] sep_chain(&self.inside, &self.delimiter, prev, a1, outs)
                    &&& outs.len() >= 1
                    &&& #[trigger] self.delimiter.post(a1, next, Ok(dv))
                    &&& #[trigger] self.inside.post(next, mid, Err(e2))
                    &&& e2 == e
                },
        }
    }

    #[verifier::loop_isolation(false)]
    fn parse(&self, ctx: &mut ParsingContext) -> (r: Result<Self::Output, Self::PErr>) {
        let ghost entry = *ctx;
        let mut res: Vec<P::Output> = Vec::new();
        let mut found_del = false;
        let ghost mut chain_end = *ctx;
        let ghost mut delim_out = arbitrary::<Del::Output>();
        loop
            invariant
                ctx.wf(),
                ctx.input == entry.input,
                ctx.keywords == entry.keywords,
                entry.index <= ctx.index,
                !found_del ==> res@.len() == 0 && *ctx == entry,
                found_del ==> {
                    &&& res@.len() >= 1
                    &&& sep_chain(&self.inside, &self.delimiter, entry, chain_end, res@)
                    &&& self.delimiter.post(chain_end, *ctx, Ok(delim_out))
                },
            decreases ctx.input@.len() - ctx.index,
        {
            let st = ctx.current_state();
            let ghost before = *ctx;
            match self.inside.parse(ctx) {
                Err(e) => {
                    let ghost mid = *ctx;
                    ctx.roll_back_op(st);
                    proof {
                        assert(*ctx == before);
                        assert(self.inside.post(*ctx, mid, Err(e)));
                    }
                    if found_del {
                        // An element, then a delimiter, but no element
                        // after the delimiter: malformed input.
                        return Err(e);
                    }
                    return Ok(res);
                },
                Ok(v) => {
                    if ctx.index == st.2 {
                        // A zero-width element: roll it back and stop,
                        // or the list would never end.
                        let ghost mid = *ctx;
                        ctx.roll_back_op(st);
                        proof {
                            assert(*ctx == before);
                            assert(self.inside.post(*ctx, mid, Ok(v)));
                        }
                        return Ok(res);
                    }
                    proof {
                        assert(self.inside.post(before, *ctx, Ok(v)));
                        if found_del {
                            assert((res@.push(v)).drop_last() =~= res@);
                            assert((res@.push(v)).last() == v);
                        } else {
                            assert((res@.push(v))[0] == v);
                        }
                        assert(sep_chain(
                            &self.inside,
                            &self.delimiter,
                            entry,
                            *ctx,
                            res@.push(v),
                        ));
                        chain_end = *ctx;
                    }
                    res.push(v);
                    found_del = true;
                },
            }
            let st2 = ctx.current_state();
            let ghost before2 = *ctx;
            match self.delimiter.parse(ctx) {
                Err(e) => {
                    let ghost mid = *ctx;
                    ctx.roll_back_op(st2);
                    proof {
                        assert(*ctx == before2);
                        assert(self.delimiter.post(*ctx, mid, Err(e)));
                    }
                    return Ok(res);
                },
                Ok(dv) => {
                    proof {
                        assert(self.delimiter.post(before2, *ctx, Ok(dv)));
                        delim_out = dv;
                    }
                },
            }
        }
    }
}

/// Parses one or more instances of the inside parser separated by the
/// delimiter: like `SepByParser`, but a missing first element is an
/// error rather than an empty list.
pub struct SepBy1Parser<P, Del> {
    pub inside: P,
    pub delimiter: Del,
}

impl<P, Del> SepBy1Parser<P, Del> {
    pub fn new(inside: P, delimiter: Del) -> (r: Self)
        ensures
            r.inside == inside,
            r.delimiter == delimiter,
    {
        Self { inside, delimiter }
    }
}

impl<P: Parser, Del: Parser> Parser for SepBy1Parser<P, Del> {
    type Output = Vec<P::Output>;

    type PErr = P::PErr;

    /// On success at least one element was parsed and the elements chain
    /// as `p (d p)*`; the repetition stopped because a delimiter attempt
    /// failed at `next`, or because one more delimiter-then-element
    /// round would consume nothing. A failure is a missing first element
    /// (rolled back, `next == prev`) or a dangling delimiter, and
    /// forwards the element error.
    open spec fn post(
        &self,
        prev: ParsingContext,
        next: ParsingContext,
        r: Result<Self::Output, Self::PErr>,
    ) -> bool {
        match r {
            Ok(v) => {
                &&& v@.len() >= 1
                &&& sep_chain(&self.inside, &self.delimiter, prev, next, v@)
                &&& (failed_attempt(&self.delimiter, next) || pair_stalls(
                    &self.inside,
                    &self.delimiter,
                    next,
                ))
            },
            Err(e) => {
                ||| (next == prev && exists|mid: ParsingContext, e2: P::PErr|
                    {
                        &&& #[trigger] self.inside.post(prev, mid, Err(e2))
                        &&& e2 == e
                    })
                ||| exists|
                    outs: Seq<P::Output>,
                    a1: ParsingContext,
                    dv: Del::Output,
                    mid: ParsingContext,
                    e2: P::PErr,
                |
                    {
                        &&& #[trigger] sep_chain(&self.inside, &self.delimiter, prev, a1, outs)
                        &&& outs.len() >= 1
                        &&& #[trigger] self.delimiter.post(a1, next, Ok(dv))
                        &&& #[trigger] self.inside.post(next, mid, Err(e2))
                        &&& e2 == e
                    }
            },
        }
    }

    #[verifier::loop_isolation(false)]
    fn parse(&self, ctx: &mut ParsingContext) -> (r: Result<Self::Output, Self::PErr>) {
        let ghost entry = *ctx;
        let mut res: Vec<P::Output> = Vec::new();
        let st0 = ctx.current_state();
        match self.inside.parse(ctx) {
            Err(e) => {
                let ghost mid = *ctx;
                ctx.roll_back_op(st0);
                proof {
                    assert(*ctx == entry);
                    assert(self.inside.post(entry, mid, Err(e)));
                }
                return Err(e);
            },
            Ok(v) => {
                proof {
                    assert(self.inside.post(entry, *ctx, Ok(v)));
                    assert((res@.push(v))[0] == v);
                    assert(sep_chain(&self.inside, &self.delimiter, entry, *ctx, res@.push(v)));
                }
                res.push(v);
            },
        }
        let ghost mut chain_end = *ctx;
        loop
            invariant
                ctx.wf(),
                ctx.input == entry.input,
                ctx.keywords == entry.keywords,
                entry.index <= ctx.index,
                res@.len() >= 1,
                *ctx == chain_end,
                sep_chain(&self.inside, &self.delimiter, entry, chain_end, res@),
            decreases ctx.input@.len() - ctx.index,
        {
            let st = ctx.current_state();
            let ghost round_start = *ctx;
            let ghost mut delim_out = arbitrary::<Del::Output>();
            match self.delimiter.parse(ctx) {
                Err(e) => {
                    let ghost mid = *ctx;
                    ctx.roll_back_op(st);
                    proof {
                        assert(*ctx == round_start);
                        assert(self.delimiter.post(*ctx, mid, Err(e)));
                    }
                    return Ok(res);
                },
                Ok(dv) => {
                    proof {
                        assert(self.delimiter.post(round_start, *ctx, Ok(dv)));
                        delim_out = dv;
                    }
                },
            }
            let st2 = ctx.current_state();
            let ghost after_del = *ctx;
            match self.inside.parse(ctx) {
                Err(e) => {
                    let ghost mid = *ctx;
                    ctx.roll_back_op(st2);
                    proof {
                        assert(*ctx == after_del);
                        assert(self.inside.post(*ctx, mid, Err(e)));
                    }
                    // A delimiter with no element after it: malformed.
                    return Err(e);
                },
                Ok(v) => {
                    if ctx.index == st.2 {
                        // The whole round was zero-width: roll it back
                        // and stop, or the list would never end.
                        let ghost mid = *ctx;
                        ctx.roll_back_op(st);
                        proof {
                            assert(*ctx == round_start);
                            assert(self.delimiter.post(*ctx, after_del, Ok(delim_out)));
                            assert(self.inside.post(after_del, mid, Ok(v)));
                        }
                        return Ok(res);
                    }
                    proof {
                        assert(self.inside.post(after_del, *ctx, Ok(v)));
                        assert((res@.push(v)).drop_last() =~= res@);
                        assert((res@.push(v)).last() == v);
                        assert(sep_chain(
                            &self.inside,
                            &self.delimiter,
                            entry,
                            *ctx,
                            res@.push(v),
                        ));
                        chain_end = *ctx;
                    }
                    res.push(v);
                },
            }
        }
    }
}

} // verus!
