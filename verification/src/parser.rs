//! The parser capability: the abstract `parse` operation every combinator
//! and grammar rule implements, the shared error capability, and the
//! sequencing combinators (pair, discard-left, discard-right).

use vstd::prelude::*;
use crate::context::{ParsingContext, run_len, ws_pred};

verus! {

/// The minimal contract every parser error satisfies: a human-readable
/// label naming the kind of thing that failed to parse.
pub trait ParserErr {
    fn label(&self) -> String;
}

impl ParserErr for () {
    fn label(&self) -> String {
        "nothing".to_owned()
    }
}

/// A value that can be parsed out of a context.
///
/// `post` is the parser's own statement of what a call to `parse` did: it
/// relates the context before the call, the context after it, and the
/// result. Every implementation proves its `parse` against its `post`, so
/// generic combinators can reason about the parsers they wrap through
/// `post` alone. Beyond that, every parser preserves well-formedness,
/// never touches the input or the keyword table, and never moves the
/// position backwards past its entry point.
pub trait Parser: Sized {
    type Output;

    type PErr: ParserErr;

    /// What a call to `parse` guarantees, relating the context before the
    /// call, the context after it, and the result.
    spec fn post(
        &self,
        prev: ParsingContext,
        next: ParsingContext,
        r: Result<Self::Output, Self::PErr>,
    ) -> bool;

    fn parse(&self, ctx: &mut ParsingContext) -> (r: Result<Self::Output, Self::PErr>)
        requires
            old(ctx).wf(),
        ensures
            final(ctx).wf(),
            final(ctx).input == old(ctx).input,
            final(ctx).keywords == old(ctx).keywords,
            old(ctx).index <= final(ctx).index,
            self.post(*old(ctx), *final(ctx), r),
    ;

    /// Runs the parser on the given input, from a fresh context. Useful
    /// for small-scale testing.
    fn run_parser(&self, inp: &str) -> (r: Result<Self::Output, Self::PErr>)
        requires
            inp@.len() < usize::MAX,
        ensures
            exists|c1: ParsingContext, c2: ParsingContext|
                {
                    &&& c1.wf()
                    &&& c1.input@ == inp@
                    &&& c1.index as nat == run_len(inp@, ws_pred())
                    &&& #[trigger] self.post(c1, c2, r)
                },
    {
        let mut ctx = ParsingContext::new(inp);
        let ghost c1 = ctx;
        let res = self.parse(&mut ctx);
        proof {
            assert(self.post(c1, ctx, res));
        }
        res
    }
}

/// An internal pair-parser: runs two parsers in order and keeps both
/// results; its error type tags which side failed.
pub struct DoubleParser<F, S> {
    pub first: F,
    pub second: S,
}

impl<F, S> DoubleParser<F, S> {
    pub fn new(first: F, second: S) -> (r: Self)
        ensures
            r.first == first,
            r.second == second,
    {
        Self { first, second }
    }
}

/// The error of a sequence of two parsers: identifies which side failed,
/// preserving the child error.
#[derive(Debug)]
pub enum DoubleParserErr<F, S> {
    FirstError(F),
    SecondError(S),
}

impl<F: ParserErr, S: ParserErr> ParserErr for DoubleParserErr<F, S> {
    fn label(&self) -> String {
        match self {
            DoubleParserErr::FirstError(e) => e.label(),
            DoubleParserErr::SecondError(e) => e.label(),
        }
    }
}

impl<F: Parser, S: Parser> Parser for DoubleParser<F, S> {
    type Output = (F::Output, S::Output);

    type PErr = DoubleParserErr<F::PErr, S::PErr>;

    /// On success both halves ran in order; on failure the error tags the
    /// half that failed, and the first half had succeeded when the second
    /// one failed.
    open spec fn post(
        &self,
        prev: ParsingContext,
        next: ParsingContext,
        r: Result<Self::Output, Self::PErr>,
    ) -> bool {
        match r {
            Ok(o) => exists|mid: ParsingContext, a1: F::Output, a2: S::Output|
                {
                    &&& #[trigger] self.first.post(prev, mid, Ok(a1))
                    &&& #[trigger] self.second.post(mid, next, Ok(a2))
                    &&& o == (a1, a2)
                },
            Err(DoubleParserErr::FirstError(e)) => self.first.post(prev, next, Err(e)),
            Err(DoubleParserErr::SecondError(e)) => exists|
                mid: ParsingContext,
                v: F::Output,
                e2: S::PErr,
            |
                {
                    &&& #[trigger] self.first.post(prev, mid, Ok(v))
                    &&& #[trigger] self.second.post(mid, next, Err(e2))
                    &&& e2 == e
                },
        }
    }

    fn parse(&self, ctx: &mut ParsingContext) -> (r: Result<Self::Output, Self::PErr>) {
        let r1 = match self.first.parse(ctx) {
            Err(e) => {
                return Err(DoubleParserErr::FirstError(e));
            },
            Ok(r) => r,
        };
        let ghost mid = *ctx;
        match self.second.parse(ctx) {
            Ok(r2) => {
                let r = Ok((r1, r2));
                proof {
                    assert(self.first.post(*old(ctx), mid, Ok(r1)));
                }
                r
            },
            Err(e) => {
                proof {
                    assert(self.first.post(*old(ctx), mid, Ok(r1)));
                }
                Err(DoubleParserErr::SecondError(e))
            },
        }
    }
}

/// Runs `first`, then `second`, keeping `first`'s result.
pub struct ThenDiscardParser<F, S> {
    pub first: F,
    pub second: S,
}

impl<F, S> ThenDiscardParser<F, S> {
    pub fn new(first: F, second: S) -> (r: Self)
        ensures
            r.first == first,
            r.second == second,
    {
        Self { first, second }
    }
}

impl<F: Parser, S: Parser> Parser for ThenDiscardParser<F, S> {
    type Output = F::Output;

    type PErr = DoubleParserErr<F::PErr, S::PErr>;

    /// Both halves ran in order and the kept result is the first one's.
    open spec fn post(
        &self,
        prev: ParsingContext,
        next: ParsingContext,
        r: Result<Self::Output, Self::PErr>,
    ) -> bool {
        match r {
            Ok(v) => exists|mid: ParsingContext, v2: F::Output, w: S::Output|
                {
                    &&& #[trigger] self.first.post(prev, mid, Ok(v2))
                    &&& #[trigger] self.second.post(mid, next, Ok(w))
                    &&& v2 == v
                },
            Err(DoubleParserErr::FirstError(e)) => self.first.post(prev, next, Err(e)),
            Err(DoubleParserErr::SecondError(e)) => exists|
                mid: ParsingContext,
                v: F::Output,
                e2: S::PErr,
            |
                {
                    &&& #[trigger] self.first.post(prev, mid, Ok(v))
                    &&& #[trigger] self.second.post(mid, next, Err(e2))
                    &&& e2 == e
                },
        }
    }

    fn parse(&self, ctx: &mut ParsingContext) -> (r: Result<Self::Output, Self::PErr>) {
        let r1 = match self.first.parse(ctx) {
            Err(e) => {
                return Err(DoubleParserErr::FirstError(e));
            },
            Ok(r) => r,
        };
        let ghost mid = *ctx;
        match self.second.parse(ctx) {
            Ok(r2) => {
                proof {
                    assert(self.first.post(*old(ctx), mid, Ok(r1)));
                    assert(self.second.post(mid, *ctx, Ok(r2)));
                }
                Ok(r1)
            },
            Err(e) => {
                proof {
                    assert(self.first.post(*old(ctx), mid, Ok(r1)));
                }
                Err(DoubleParserErr::SecondError(e))
            },
        }
    }
}

/// Runs `first`, then `second`, keeping `second`'s result.
pub struct DiscardThenParser<F, S> {
    pub first: F,
    pub second: S,
}

impl<F, S> DiscardThenParser<F, S> {
    pub fn new(first: F, second: S) -> (r: Self)
        ensures
            r.first == first,
            r.second == second,
    {
        Self { first, second }
    }
}

impl<F: Parser, S: Parser> Parser for DiscardThenParser<F, S> {
    type Output = S::Output;

    type PErr = DoubleParserErr<F::PErr, S::PErr>;

    /// Both halves ran in order and the kept result is the second one's.
    open spec fn post(
        &self,
        prev: ParsingContext,
        next: ParsingContext,
        r: Result<Self::Output, Self::PErr>,
    ) -> bool {
        match r {
            Ok(v) => exists|mid: ParsingContext, w: F::Output, v2: S::Output|
                {
                    &&& #[trigger] self.first.post(prev, mid, Ok(w))
                    &&& #[trigger] self.second.post(mid, next, Ok(v2))
                    &&& v2 == v
                },
            Err(DoubleParserErr::FirstError(e)) => self.first.post(prev, next, Err(e)),
            Err(DoubleParserErr::SecondError(e)) => exists|
                mid: ParsingContext,
                v: F::Output,
                e2: S::PErr,
            |
                {
                    &&& #[trigger] self.first.post(prev, mid, Ok(v))
                    &&& #[trigger] self.second.post(mid, next, Err(e2))
                    &&& e2 == e
                },
        }
    }

    fn parse(&self, ctx: &mut ParsingContext) -> (r: Result<Self::Output, Self::PErr>) {
        let r1 = match self.first.parse(ctx) {
            Err(e) => {
                return Err(DoubleParserErr::FirstError(e));
            },
            Ok(r) => r,
        };
        let ghost mid = *ctx;
        match self.second.parse(ctx) {
            Ok(r2) => {
                proof {
                    assert(self.first.post(*old(ctx), mid, Ok(r1)));
                    assert(self.second.post(mid, *ctx, Ok(r2)));
                }
                Ok(r2)
            },
            Err(e) => {
                proof {
                    assert(self.first.post(*old(ctx), mid, Ok(r1)));
                }
                Err(DoubleParserErr::SecondError(e))
            },
        }
    }
}

/// Run `fst`, then `snd`, and keep `fst`'s result. A free function
/// because this verifier refuses generic provided methods on traits.
pub fn then_discard<F: Parser, P: Parser>(fst: F, snd: P) -> (r: ThenDiscardParser<F, P>)
    ensures
        r.first == fst,
        r.second == snd,
{
    ThenDiscardParser::new(fst, snd)
}

/// Run `fst`, then `snd`, and keep `snd`'s result. A free function
/// because this verifier refuses generic provided methods on traits.
pub fn discard_then<F: Parser, P: Parser>(fst: F, snd: P) -> (r: DiscardThenParser<F, P>)
    ensures
        r.first == fst,
        r.second == snd,
{
    DiscardThenParser::new(fst, snd)
}

} // verus!
