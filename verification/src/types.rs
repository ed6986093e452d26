//! The type-expression grammar, as a recursive-descent parser built on
//! the context and the terminal parsers.
//!
//! Grammar:
//! ```text
//! Type     := RefOrPtr | SimpleOrGeneric
//! RefOrPtr := ('&' | '*') Type
//! SimpleOrGeneric := Ident Generics?
//! Generics := '<' Type (',' Type)* '>'
//! ```

use vstd::prelude::*;
use crate::ast::Ty;
use crate::combinators::CharParser;
use crate::context::{
    ident_pred, ParsingContext, is_ascii, is_ascii_char, is_digit_char, is_ident_char,
    lemma_run_len_props, run_len, stepped, ws_pred,
};
use crate::literals::{
    has_alpha, ident_len, IdentParser, IdentParserErr, IdentParserErrReason,
};
use crate::parser::{Parser, ParserErr};
use vstd::string::StrSliceExecFns;

verus! {

/// How a type expression can fail to parse.
#[derive(Debug)]
pub enum TypeParserErr {
    UnclosedGeneric(String),
    InvalidGeneric(String),
    ContainsUnicode(String),
    InvalidFormat(String),
    EmptyStr,
}

impl ParserErr for TypeParserErr {
    fn label(&self) -> String {
        "type".to_owned()
    }
}

/// `s` with its leading whitespace removed.
pub open spec fn skip_ws(s: Seq<char>) -> Seq<char> {
    s.skip(run_len(s, ws_pred()) as int)
}

/// An identifier acceptable in type position: as `ident_valid`, except
/// that reserved words are tolerated as raw type names.
pub open spec fn type_name_ok(s: Seq<char>) -> bool {
    let n = ident_len(s) as int;
    &&& n > 0
    &&& !is_digit_char(s[0])
    &&& (n == s.len() || is_ascii_char(s[n]))
    &&& has_alpha(s.take(n))
}

/// Whether a type expression of the grammar starts at `s`: a chain of
/// `&` and `*` prefixes (each followed by optional whitespace) ending
/// in an identifier acceptable in type position. This is exactly the
/// success criterion of the type parser.
pub open spec fn ty_start_ok(s: Seq<char>) -> bool
    decreases s.len(),
    via ty_start_ok_dec
{
    if s.len() == 0 {
        false
    } else if s[0] == '&' || s[0] == '*' {
        ty_start_ok(skip_ws(s.skip(1)))
    } else {
        type_name_ok(s)
    }
}

#[via_fn]
proof fn ty_start_ok_dec(s: Seq<char>) {
    if s.len() > 0 && (s[0] == '&' || s[0] == '*') {
        lemma_run_len_props(s.skip(1), ws_pred());
    }
}

/// The consumed part of the input between the remainders `b` (before)
/// and `a` (after) forms the type expression `t` under the grammar,
/// with whitespace skipped after every token. The grammar itself never
/// yields a `Primitive` node.
pub open spec fn ty_parse_rel(b: Seq<char>, a: Seq<char>, t: Ty) -> bool
    decreases t, 0int,
        via ty_parse_rel_dec
{
    match t {
        Ty::Primitive(_) => false,
        Ty::Userdefined(name) => {
            let n = ident_len(b) as int;
            &&& type_name_ok(b)
            &&& name@ == b.take(n)
            &&& a == skip_ws(b.skip(n))
        },
        Ty::Generic(name, args) => {
            let n = ident_len(b) as int;
            let after_id = skip_ws(b.skip(n));
            &&& type_name_ok(b)
            &&& name@ == b.take(n)
            &&& after_id.len() > 0 && after_id[0] == '<'
            &&& args@.len() >= 1
            &&& args_parse_rel(skip_ws(after_id.skip(1)), a, args@)
        },
        Ty::Ref(inner) => {
            &&& b.len() > 0 && b[0] == '&'
            &&& ty_parse_rel(skip_ws(b.skip(1)), a, *inner)
        },
        Ty::Ptr(inner) => {
            &&& b.len() > 0 && b[0] == '*'
            &&& ty_parse_rel(skip_ws(b.skip(1)), a, *inner)
        },
    }
}

#[via_fn]
proof fn ty_parse_rel_dec(b: Seq<char>, a: Seq<char>, t: Ty) {
    broadcast use vstd::std_specs::vec::axiom_vec_decreases_to_view;

    match t {
        Ty::Generic(_, args) => {
            assert(decreases_to!(t => args));
            assert(decreases_to!(args => args@));
        },
        _ => {},
    }
}

/// The consumed input between `b` and `a` forms the bracketed argument
/// list `'<' .. '>'` of a generic instantiation, the opening bracket
/// already consumed: the arguments of `args` separated by commas, then
/// the closing bracket, each token followed by skipped whitespace.
pub open spec fn args_parse_rel(b: Seq<char>, a: Seq<char>, args: Seq<Ty>) -> bool
    decreases args, 2int,
{
    exists|m: Seq<char>|
        {
            &&& args_sep_rel(b, m, args)
            &&& m.len() > 0 && m[0] == '>'
            &&& a == #[trigger] skip_ws(m.skip(1))
        }
}

/// The consumed input between `b` and `m` forms the comma-separated
/// arguments `args` (at least one), ending right after the last one.
pub open spec fn args_sep_rel(b: Seq<char>, m: Seq<char>, args: Seq<Ty>) -> bool
    decreases args, 1int,
        via args_sep_rel_dec
{
    if args.len() == 0 {
        false
    } else if args.len() == 1 {
        ty_parse_rel(b, m, args[0])
    } else {
        exists|m1: Seq<char>|
            {
                &&& ty_parse_rel(b, m1, args[0])
                &&& m1.len() > 0 && m1[0] == ','
                &&& args_sep_rel(#[trigger] skip_ws(m1.skip(1)), m, args.drop_first())
            }
    }
}

#[via_fn]
proof fn args_sep_rel_dec(b: Seq<char>, m: Seq<char>, args: Seq<Ty>) {
    broadcast use vstd::seq::axiom_seq_index_decreases;

    if args.len() > 1 {
        vstd::seq::axiom_seq_len_decreases(args, args.drop_first());
    }
}

/// Law: the grammar accepts what it produces. Whenever some consumed
/// prefix of `b` forms a type expression `t` under the grammar, the
/// parser's success criterion holds at `b`; together with the parsers'
/// contracts (success exactly on `ty_start_ok`, and every returned tree
/// related to the consumed text), the type parser returns an error
/// exactly on the inputs where no prefix forms a type expression, and
/// never returns a partial tree.
pub proof fn lemma_ty_parse_rel_implies_start_ok(b: Seq<char>, a: Seq<char>, t: Ty)
    requires
        ty_parse_rel(b, a, t),
    ensures
        ty_start_ok(b),
    decreases t,
{
    match t {
        Ty::Primitive(_) => {},
        Ty::Userdefined(_) => {
            lemma_type_name_not_prefix_op(b);
        },
        Ty::Generic(_, _) => {
            lemma_type_name_not_prefix_op(b);
        },
        Ty::Ref(inner) => {
            lemma_ty_parse_rel_implies_start_ok(skip_ws(b.skip(1)), a, *inner);
        },
        Ty::Ptr(inner) => {
            lemma_ty_parse_rel_implies_start_ok(skip_ws(b.skip(1)), a, *inner);
        },
    }
}

/// An identifier acceptable in type position never starts with a
/// reference or pointer operator, so on such input the start criterion
/// is the identifier criterion itself.
proof fn lemma_type_name_not_prefix_op(b: Seq<char>)
    requires
        type_name_ok(b),
    ensures
        ty_start_ok(b),
{
    lemma_run_len_props(b, ident_pred());
    assert(is_ident_char(b[0]));
}

/// A comma-separated argument chain, started at the bracket group `g`
/// (whose opening `<` is still unconsumed here), that cannot continue:
/// after its last argument the input neither closes the group nor
/// carries a comma followed by a further argument.
pub open spec fn stuck_chain(g: Seq<char>, m: Seq<char>, args: Seq<Ty>) -> bool {
    &&& args_sep_rel(skip_ws(g.skip(1)), m, args)
    &&& (m.len() == 0 || (m[0] != '>' && (m[0] == ',' ==> !ty_start_ok(skip_ws(m.skip(1))))))
}

/// The bracketed argument list at `g` cannot be completed: there is no
/// opening bracket, or no argument can start after it, or some argument
/// chain read from it gets stuck before a closing bracket. The grammar
/// parser falls back to a plain name exactly in these situations.
pub open spec fn generics_stuck(g: Seq<char>) -> bool {
    ||| g.len() == 0
    ||| g[0] != '<'
    ||| !ty_start_ok(skip_ws(g.skip(1)))
    ||| exists|m: Seq<char>, args: Seq<Ty>| #[trigger] stuck_chain(g, m, args)
}

/// The optional bracket group is taken greedily: a tree parsed from `b`
/// ends in a plain user-defined name only when the bracket group after
/// that name was absent or stuck. (Inside an argument list the grammar
/// relation already forces the greedy reading, since every argument
/// must be followed by a comma or the closing bracket.)
pub open spec fn greedy_ty(b: Seq<char>, t: Ty) -> bool
    decreases t,
{
    match t {
        Ty::Primitive(_) => true,
        Ty::Userdefined(_) => generics_stuck(skip_ws(b.skip(ident_len(b) as int))),
        Ty::Generic(_, _) => true,
        Ty::Ref(inner) => greedy_ty(skip_ws(b.skip(1)), *inner),
        Ty::Ptr(inner) => greedy_ty(skip_ws(b.skip(1)), *inner),
    }
}

/// Extending a comma-separated argument chain by one more comma and
/// argument keeps it a chain.
proof fn lemma_args_sep_snoc(b: Seq<char>, m: Seq<char>, m2: Seq<char>, args: Seq<Ty>, t: Ty)
    requires
        args.len() >= 1,
        args_sep_rel(b, m, args),
        m.len() > 0,
        m[0] == ',',
        ty_parse_rel(skip_ws(m.skip(1)), m2, t),
    ensures
        args_sep_rel(b, m2, args.push(t)),
    decreases args.len(),
{
    if args.len() == 1 {
        assert(args.push(t)[0] == args[0]);
        assert(args.push(t).drop_first() =~= seq![t]);
        assert(args_sep_rel(skip_ws(m.skip(1)), m2, args.push(t).drop_first()));
        assert(args_sep_rel(b, m2, args.push(t)));
    } else {
        let m1w = choose|m1: Seq<char>|
            {
                &&& ty_parse_rel(b, m1, args[0])
                &&& m1.len() > 0 && m1[0] == ','
                &&& args_sep_rel(#[trigger] skip_ws(m1.skip(1)), m, args.drop_first())
            };
        lemma_args_sep_snoc(skip_ws(m1w.skip(1)), m, m2, args.drop_first(), t);
        assert(args.push(t).drop_first() =~= args.drop_first().push(t));
        assert(args.push(t)[0] == args[0]);
        assert(args_sep_rel(skip_ws(m1w.skip(1)), m2, args.push(t).drop_first()));
        assert(args_sep_rel(b, m2, args.push(t)));
    }
}

/// Parse an identifier in type position: a reserved word is tolerated
/// here as a raw name, every other identifier failure is forwarded.
fn parse_type_name(ctx: &mut ParsingContext) -> (r: Result<String, IdentParserErr>)
    requires
        old(ctx).wf(),
    ensures
        final(ctx).wf(),
        final(ctx).input == old(ctx).input,
        final(ctx).keywords == old(ctx).keywords,
        old(ctx).index <= final(ctx).index,
        r is Ok <==> type_name_ok(old(ctx).remaining()),
        r matches Ok(name) ==> {
            let s = old(ctx).remaining();
            let n = ident_len(s) as int;
            &&& name@ == s.take(n)
            &&& stepped(*old(ctx), *final(ctx), (n + run_len(s.skip(n), ws_pred())) as nat)
        },
        r is Ok ==> final(ctx).remaining() == skip_ws(
            old(ctx).remaining().skip(ident_len(old(ctx).remaining()) as int),
        ),
        r is Err ==> match r {
            Ok(_) => false,
            Err(e) => match e.reason {
                IdentParserErrReason::FoundKeyword => false,
                IdentParserErrReason::NoAlphaNum => true,
                _ => *final(ctx) == *old(ctx),
            },
        },
{
    let ghost s = old(ctx).remaining();
    let ghost n = ident_len(s) as int;
    match IdentParser.parse(ctx) {
        Ok(id) => {
            proof {
                assert(ctx.remaining() =~= skip_ws(s.skip(n)));
            }
            Ok(id)
        },
        Err(ier) => match ier.reason {
            IdentParserErrReason::FoundKeyword => {
                proof {
                    assert(ctx.remaining() =~= skip_ws(s.skip(n)));
                }
                Ok(ier.found)
            },
            _ => Err(ier),
        },
    }
}

/// Parse a full type expression: the ordered choice between the
/// reference-or-pointer rule and the simple-or-generic rule, decided by
/// the leading character.
fn parse_ty(ctx: &mut ParsingContext) -> (r: Result<Ty, TypeParserErr>)
    requires
        old(ctx).wf(),
    ensures
        final(ctx).wf(),
        final(ctx).input == old(ctx).input,
        final(ctx).keywords == old(ctx).keywords,
        old(ctx).index <= final(ctx).index,
        r is Ok <==> ty_start_ok(old(ctx).remaining()),
        r is Ok ==> old(ctx).index < final(ctx).index,
        r matches Ok(t) ==> ty_parse_rel(old(ctx).remaining(), final(ctx).remaining(), t)
            && greedy_ty(old(ctx).remaining(), t),
        old(ctx).remaining().len() == 0 ==> r matches Err(TypeParserErr::EmptyStr),
    decreases old(ctx).remaining().len(), 1int,
{
    let take_ref = match ctx.peek_char() {
        Some(c) if c == '&' || c == '*' => true,
        _ => false,
    };
    if take_ref {
        parse_ref_ty(ctx)
    } else {
        parse_simple_or_generic(ctx)
    }
}

/// The reference-or-pointer rule: a `&` or `*` prefix, optional
/// whitespace, then a full type, wrapped in `Ref` or `Ptr`. Any other
/// leading character is a hard non-match.
fn parse_ref_ty(ctx: &mut ParsingContext) -> (r: Result<Ty, TypeParserErr>)
    requires
        old(ctx).wf(),
    ensures
        final(ctx).wf(),
        final(ctx).input == old(ctx).input,
        final(ctx).keywords == old(ctx).keywords,
        old(ctx).index <= final(ctx).index,
        r is Ok <==> {
            let s = old(ctx).remaining();
            s.len() > 0 && (s[0] == '&' || s[0] == '*') && ty_start_ok(s)
        },
        r is Ok ==> old(ctx).index < final(ctx).index,
        r matches Ok(t) ==> ty_parse_rel(old(ctx).remaining(), final(ctx).remaining(), t)
            && greedy_ty(old(ctx).remaining(), t),
        r is Err && !(old(ctx).remaining().len() > 0 && (old(ctx).remaining()[0] == '&'
            || old(ctx).remaining()[0] == '*')) ==> *final(ctx) == *old(ctx),
    decreases old(ctx).remaining().len(), 0int,
{
    let ghost prev = *ctx;
    let head = ctx.peek_char();
    let is_prefix = match head {
        Some(c) => c == '&' || c == '*',
        None => false,
    };
    if !is_prefix {
        return Err(TypeParserErr::InvalidFormat("not a pointer or reference type".to_owned()));
    }
    let c = head.unwrap();
    ctx.advance(1);
    ctx.eat_ws();
    proof {
        assert(ctx.remaining() =~= skip_ws(prev.remaining().skip(1)));
        lemma_run_len_props(prev.remaining().skip(1), ws_pred());
    }
    let ghost tail = ctx.remaining();
    match parse_ty(ctx) {
        Ok(t) => {
            proof {
                assert(ty_parse_rel(tail, ctx.remaining(), t));
                assert(greedy_ty(tail, t));
            }
            if c == '&' {
                Ok(Ty::Ref(Box::new(t)))
            } else {
                Ok(Ty::Ptr(Box::new(t)))
            }
        },
        Err(e) => Err(e),
    }
}

/// The simple-or-generic rule: an identifier (reserved words tolerated
/// as raw names), then an optional bracketed, comma-separated, nonempty
/// list of types. Any failure inside the bracket group rolls the group
/// back entirely, leaving a plain user-defined name.
#[verifier::loop_isolation(false)]
fn parse_simple_or_generic(ctx: &mut ParsingContext) -> (r: Result<Ty, TypeParserErr>)
    requires
        old(ctx).wf(),
    ensures
        final(ctx).wf(),
        final(ctx).input == old(ctx).input,
        final(ctx).keywords == old(ctx).keywords,
        old(ctx).index <= final(ctx).index,
        r is Ok <==> type_name_ok(old(ctx).remaining()),
        r is Ok ==> old(ctx).index < final(ctx).index,
        r matches Ok(t) ==> ty_parse_rel(old(ctx).remaining(), final(ctx).remaining(), t)
            && greedy_ty(old(ctx).remaining(), t),
        old(ctx).remaining().len() == 0 ==> r matches Err(TypeParserErr::EmptyStr),
    decreases old(ctx).remaining().len(), 0int,
{
    let ghost prev = *ctx;
    let rem_empty = ctx.cursor.unicode_len() == 0;
    let name = match parse_type_name(ctx) {
        Ok(id) => id,
        Err(ier) => {
            if rem_empty {
                return Err(TypeParserErr::EmptyStr);
            }
            return Err(
                match ier.reason {
                    IdentParserErrReason::IllicitChar(c) => {
                        if is_ascii(c) {
                            TypeParserErr::InvalidFormat(
                                "invalid simple or generic type format".to_owned(),
                            )
                        } else {
                            TypeParserErr::ContainsUnicode(ier.found)
                        }
                    },
                    _ => TypeParserErr::InvalidFormat(
                        "invalid simple or generic type format".to_owned(),
                    ),
                },
            );
        },
    };
    // The optional bracketed argument list; any failure inside it rolls
    // the whole group back.
    let ghost b = prev.remaining();
    let ghost n = ident_len(b) as int;
    let st = ctx.current_state();
    let ghost after_id = *ctx;
    match CharParser::new('<').parse(ctx) {
        Err(_) => {
            proof {
                assert(generics_stuck(after_id.remaining()));
            }
            return Ok(Ty::Userdefined(name));
        },
        Ok(_) => {},
    }
    let ghost bargs = ctx.remaining();
    proof {
        assert(bargs =~= skip_ws(after_id.remaining().skip(1)));
    }
    let mut args: Vec<Ty> = Vec::new();
    match parse_ty(ctx) {
        Err(_) => {
            // No argument can start after the opening bracket.
            ctx.roll_back_op(st);
            proof {
                assert(*ctx == after_id);
                assert(!ty_start_ok(skip_ws(after_id.remaining().skip(1))));
                assert(generics_stuck(after_id.remaining()));
            }
            return Ok(Ty::Userdefined(name));
        },
        Ok(t0) => {
            proof {
                assert(args@.push(t0)[0] == t0);
                assert(args@.push(t0).len() == 1);
                assert(args_sep_rel(bargs, ctx.remaining(), args@.push(t0)));
            }
            args.push(t0);
        },
    }
    let mut comma_failed = false;
    while !comma_failed
        invariant
            ctx.wf(),
            ctx.input == prev.input,
            ctx.keywords == prev.keywords,
            after_id.index < ctx.index,
            args@.len() >= 1,
            args_sep_rel(bargs, ctx.remaining(), args@),
            comma_failed ==> ctx.remaining().len() == 0 || ctx.remaining()[0] != ',',
        decreases ctx.input@.len() - ctx.index + (if comma_failed { 0int } else { 1int }),
    {
        let ghost m = ctx.remaining();
        match CharParser::new(',').parse(ctx) {
            Err(_) => {
                comma_failed = true;
            },
            Ok(_) => {
                proof {
                    assert(ctx.remaining() =~= skip_ws(m.skip(1)));
                }
                match parse_ty(ctx) {
                    Err(_) => {
                        // A delimiter with no argument after it: the
                        // chain is stuck at the dangling comma.
                        ctx.roll_back_op(st);
                        proof {
                            assert(*ctx == after_id);
                            assert(!ty_start_ok(skip_ws(m.skip(1))));
                            assert(stuck_chain(after_id.remaining(), m, args@));
                            assert(generics_stuck(after_id.remaining()));
                        }
                        return Ok(Ty::Userdefined(name));
                    },
                    Ok(t) => {
                        proof {
                            assert(ty_parse_rel(skip_ws(m.skip(1)), ctx.remaining(), t));
                            lemma_args_sep_snoc(bargs, m, ctx.remaining(), args@, t);
                        }
                        args.push(t);
                    },
                }
            },
        }
    }
    let ghost mlast = ctx.remaining();
    match CharParser::new('>').parse(ctx) {
        Err(_) => {
            // Neither a comma nor the closing bracket follows the last
            // argument: the chain is stuck.
            ctx.roll_back_op(st);
            proof {
                assert(*ctx == after_id);
                assert(stuck_chain(after_id.remaining(), mlast, args@));
                assert(generics_stuck(after_id.remaining()));
            }
            Ok(Ty::Userdefined(name))
        },
        Ok(_) => {
            proof {
                assert(ctx.remaining() =~= skip_ws(mlast.skip(1)));
                assert(args_parse_rel(bargs, ctx.remaining(), args@));
                assert(ty_parse_rel(b, ctx.remaining(), Ty::Generic(name, args)));
            }
            Ok(Ty::Generic(name, args))
        },
    }
}

/// The full type grammar as a parser value.
pub struct Type;

impl Parser for Type {
    type Output = Ty;

    type PErr = TypeParserErr;

    /// Succeeds exactly when a type expression of the grammar starts at
    /// the current position; the consumed text forms the returned tree
    /// under the grammar, the optional bracket group is taken greedily,
    /// and at least one character is consumed. No tree comes back from
    /// a failed parse.
    open spec fn post(
        &self,
        prev: ParsingContext,
        next: ParsingContext,
        r: Result<Self::Output, Self::PErr>,
    ) -> bool {
        match r {
            Ok(t) => {
                &&& ty_start_ok(prev.remaining())
                &&& prev.index < next.index
                &&& ty_parse_rel(prev.remaining(), next.remaining(), t)
                &&& greedy_ty(prev.remaining(), t)
            },
            Err(e) => !ty_start_ok(prev.remaining()) && (prev.remaining().len() == 0
                ==> e is EmptyStr),
        }
    }

    fn parse(&self, ctx: &mut ParsingContext) -> (r: Result<Self::Output, Self::PErr>) {
        parse_ty(ctx)
    }
}

/// The reference-or-pointer rule as a parser value.
pub struct RefTy;

impl Parser for RefTy {
    type Output = Ty;

    type PErr = TypeParserErr;

    /// Succeeds exactly when a `&`- or `*`-prefixed type expression
    /// starts at the current position; the consumed text forms the
    /// returned tree under the grammar, with the bracket group taken
    /// greedily. A non-prefix head is a hard non-match that consumes
    /// nothing.
    open spec fn post(
        &self,
        prev: ParsingContext,
        next: ParsingContext,
        r: Result<Self::Output, Self::PErr>,
    ) -> bool {
        let s = prev.remaining();
        match r {
            Ok(t) => {
                &&& s.len() > 0 && (s[0] == '&' || s[0] == '*') && ty_start_ok(s)
                &&& prev.index < next.index
                &&& ty_parse_rel(s, next.remaining(), t)
                &&& greedy_ty(s, t)
            },
            Err(_) => {
                &&& !(s.len() > 0 && (s[0] == '&' || s[0] == '*') && ty_start_ok(s))
                &&& (!(s.len() > 0 && (s[0] == '&' || s[0] == '*')) ==> next == prev)
            },
        }
    }

    fn parse(&self, ctx: &mut ParsingContext) -> (r: Result<Self::Output, Self::PErr>) {
        parse_ref_ty(ctx)
    }
}

/// The simple-or-generic rule as a parser value.
pub struct GenericOrSimpleTy;

impl Parser for GenericOrSimpleTy {
    type Output = Ty;

    type PErr = TypeParserErr;

    /// Succeeds exactly when an identifier acceptable in type position
    /// starts at the current position; the consumed text forms the
    /// returned tree under the grammar, with the bracket group taken
    /// greedily.
    open spec fn post(
        &self,
        prev: ParsingContext,
        next: ParsingContext,
        r: Result<Self::Output, Self::PErr>,
    ) -> bool {
        match r {
            Ok(t) => {
                &&& type_name_ok(prev.remaining())
                &&& prev.index < next.index
                &&& ty_parse_rel(prev.remaining(), next.remaining(), t)
                &&& greedy_ty(prev.remaining(), t)
            },
            Err(_) => !type_name_ok(prev.remaining()),
        }
    }

    fn parse(&self, ctx: &mut ParsingContext) -> (r: Result<Self::Output, Self::PErr>) {
        parse_simple_or_generic(ctx)
    }
}

/// The identifier-in-type-position rule as a parser value: a reserved
/// word is tolerated here as a raw type name.
pub struct SimpleType;

impl Parser for SimpleType {
    type Output = String;

    type PErr = IdentParserErr;

    /// Succeeds exactly on an identifier acceptable in type position,
    /// returning the munched name and consuming it with its trailing
    /// whitespace.
    open spec fn post(
        &self,
        prev: ParsingContext,
        next: ParsingContext,
        r: Result<Self::Output, Self::PErr>,
    ) -> bool {
        let s = prev.remaining();
        let n = ident_len(s) as int;
        match r {
            Ok(name) => {
                &&& type_name_ok(s)
                &&& name@ == s.take(n)
                &&& stepped(prev, next, (n + run_len(s.skip(n), ws_pred())) as nat)
            },
            Err(_) => !type_name_ok(s),
        }
    }

    fn parse(&self, ctx: &mut ParsingContext) -> (r: Result<Self::Output, Self::PErr>) {
        parse_type_name(ctx)
    }
}

} // verus!
