//! A runtime parser-combinator engine for a small language front end,
//! together with the type-expression grammar built from it.
//!
//! The engine is split into a parsing context that owns position
//! bookkeeping and backtracking over an immutable input (`context`),
//! the parser capability with its sequencing combinators (`parser`),
//! the structural combinators and terminal character and string
//! parsers (`combinators`), the identifier and integer literal parsers
//! (`literals`), the abstract syntax of type expressions (`ast`), and
//! the recursive-descent grammar over them (`types`).
//!
//! Every parser implements the `Parser` capability and states what a
//! call did through its `post` relation: generic combinators reason
//! about the parsers they wrap through that relation alone, so the
//! backtracking guarantees (a failed attempt restores the position, an
//! option never fails, a repetition chains exactly its results) hold
//! for every parser one plugs in.

pub mod ast;
pub mod combinators;
pub mod context;
pub mod literals;
pub mod parser;
pub mod types;

