//! The parsing context: position bookkeeping over an immutable input,
//! with snapshot/rollback support for backtracking combinators.

use vstd::prelude::*;
use vstd::string::StrSliceExecFns;

verus! {

/// Whitespace characters recognized between tokens.
pub open spec fn is_ws_char(c: char) -> bool {
    c == ' ' || c == '\n' || c == '\t' || c == '\r'
}

/// Executable counterpart of `is_ws_char`.
pub fn is_ws(c: char) -> (r: bool)
    ensures
        r == is_ws_char(c),
{
    c == ' ' || c == '\n' || c == '\t' || c == '\r'
}

/// ASCII decimal digits.
pub open spec fn is_digit_char(c: char) -> bool {
    48 <= c as u32 <= 57
}

/// Executable counterpart of `is_digit_char`.
pub fn is_digit(c: char) -> (r: bool)
    ensures
        r == is_digit_char(c),
{
    c >= '0' && c <= '9'
}

/// ASCII letters.
pub open spec fn is_alpha_char(c: char) -> bool {
    65 <= c as u32 <= 90 || 97 <= c as u32 <= 122
}

/// Executable counterpart of `is_alpha_char`.
pub fn is_alpha(c: char) -> (r: bool)
    ensures
        r == is_alpha_char(c),
{
    (c >= 'A' && c <= 'Z') || (c >= 'a' && c <= 'z')
}

/// Characters an identifier may contain: ASCII letters, ASCII digits
/// and the underscore.
pub open spec fn is_ident_char(c: char) -> bool {
    is_digit_char(c) || is_alpha_char(c) || c == '_'
}

/// Executable counterpart of `is_ident_char`.
pub fn is_ident(c: char) -> (r: bool)
    ensures
        r == is_ident_char(c),
{
    is_digit(c) || is_alpha(c) || c == '_'
}

/// ASCII characters.
pub open spec fn is_ascii_char(c: char) -> bool {
    c as u32 <= 127
}

/// Executable counterpart of `is_ascii_char`.
pub fn is_ascii(c: char) -> (r: bool)
    ensures
        r == is_ascii_char(c),
{
    c <= '\u{7f}'
}

/// Length of the maximal prefix of `s` whose characters all satisfy `p`.
pub open spec fn run_len(s: Seq<char>, p: spec_fn(char) -> bool) -> nat
    decreases s.len(),
{
    if s.len() == 0 || !p(s[0]) {
        0
    } else {
        1 + run_len(s.skip(1), p)
    }
}

/// The characters inside the maximal run satisfy `p`, and the run stops
/// either at the end of `s` or at a character that fails `p`.
pub proof fn lemma_run_len_props(s: Seq<char>, p: spec_fn(char) -> bool)
    ensures
        run_len(s, p) <= s.len(),
        forall|i: int| 0 <= i < run_len(s, p) ==> p(s[i]),
        run_len(s, p) < s.len() ==> !p(s[run_len(s, p) as int]),
    decreases s.len(),
{
    if s.len() == 0 || !p(s[0]) {
    } else {
        lemma_run_len_props(s.skip(1), p);
        assert forall|i: int| 0 <= i < run_len(s, p) implies p(s[i]) by {
            if i > 0 {
                assert(p(s.skip(1)[i - 1]));
            }
        }
        if run_len(s, p) < s.len() {
            assert(!p(s.skip(1)[run_len(s, p) - 1]));
        }
    }
}

/// A maximal run is pinned down by its contents and its boundary.
pub proof fn lemma_run_len_is(s: Seq<char>, p: spec_fn(char) -> bool, k: int)
    requires
        0 <= k <= s.len(),
        forall|i: int| 0 <= i < k ==> p(s[i]),
        k < s.len() ==> !p(s[k]),
    ensures
        run_len(s, p) == k,
    decreases k,
{
    if k == 0 {
    } else {
        assert(p(s[0]));
        lemma_run_len_is(s.skip(1), p, k - 1);
    }
}

/// The predicate selecting whitespace, used by the maximal-munch scans.
pub open spec fn ws_pred() -> spec_fn(char) -> bool {
    |c: char| is_ws_char(c)
}

/// The predicate selecting non-whitespace.
pub open spec fn nonws_pred() -> spec_fn(char) -> bool {
    |c: char| !is_ws_char(c)
}

/// The predicate selecting identifier characters.
pub open spec fn ident_pred() -> spec_fn(char) -> bool {
    |c: char| is_ident_char(c)
}

/// The predicate selecting ASCII decimal digits.
pub open spec fn digit_pred() -> spec_fn(char) -> bool {
    |c: char| is_digit_char(c)
}

/// Characters allowed inside a type-expression span: ASCII letters and
/// digits, underscore, the prefix operators, angle brackets, comma and
/// plain space. Newlines and tabs are not allowed.
pub open spec fn is_span_char(c: char) -> bool {
    is_digit_char(c) || is_alpha_char(c) || c == '_' || c == '&' || c == '*' || c == '<'
        || c == '>' || c == ',' || c == ' '
}

/// Executable counterpart of `is_span_char`.
pub fn is_span(c: char) -> (r: bool)
    ensures
        r == is_span_char(c),
{
    is_digit(c) || is_alpha(c) || c == '_' || c == '&' || c == '*' || c == '<' || c == '>'
        || c == ',' || c == ' '
}

/// Characters that unconditionally end a type-expression span.
pub open spec fn is_span_stop_char(c: char) -> bool {
    c == '-' || c == '=' || c == ')' || c == '{'
}

/// Executable counterpart of `is_span_stop_char`.
pub fn is_span_stop(c: char) -> (r: bool)
    ensures
        r == is_span_stop_char(c),
{
    c == '-' || c == '=' || c == ')' || c == '{'
}

/// The type-span scan from position `i` with `depth` open angle
/// brackets: the number of characters a type-expression span occupies,
/// or `None` when the scan meets a disallowed character or stops with
/// unbalanced brackets. A stop character or the end of the input ends
/// the scan; the stop character itself is not part of the span.
pub open spec fn type_span_from(s: Seq<char>, i: int, depth: int) -> Option<int>
    decreases s.len() - i,
        when 0 <= i <= s.len()
{
    if i == s.len() {
        if depth == 0 {
            Some(i)
        } else {
            None
        }
    } else if is_span_stop_char(s[i]) {
        if depth == 0 {
            Some(i)
        } else {
            None
        }
    } else if !is_span_char(s[i]) {
        None
    } else if s[i] == '<' {
        type_span_from(s, i + 1, depth + 1)
    } else if s[i] == '>' {
        type_span_from(s, i + 1, depth - 1)
    } else {
        type_span_from(s, i + 1, depth)
    }
}

/// The length of the type-expression span at the head of `s`, if the
/// scan succeeds.
pub open spec fn type_span(s: Seq<char>) -> Option<int> {
    type_span_from(s, 0, 0)
}

/// Row and column reached after consuming `s`, starting from `row`/`col`:
/// a newline moves to the next row and resets the column, any other
/// character advances the column.
pub open spec fn pos_after(row: int, col: int, s: Seq<char>) -> (int, int)
    decreases s.len(),
{
    if s.len() == 0 {
        (row, col)
    } else {
        let p = pos_after(row, col, s.drop_last());
        if s.last() == '\n' {
            (p.0 + 1, 1)
        } else {
            (p.0, p.1 + 1)
        }
    }
}

/// Consuming `s1 + s2` is consuming `s1`, then `s2`.
pub proof fn lemma_pos_after_concat(row: int, col: int, s1: Seq<char>, s2: Seq<char>)
    ensures
        pos_after(row, col, s1 + s2) == pos_after(
            pos_after(row, col, s1).0,
            pos_after(row, col, s1).1,
            s2,
        ),
    decreases s2.len(),
{
    if s2.len() == 0 {
        assert(s1 + s2 =~= s1);
    } else {
        lemma_pos_after_concat(row, col, s1, s2.drop_last());
        assert((s1 + s2).drop_last() =~= s1 + s2.drop_last());
        assert((s1 + s2).last() == s2.last());
    }
}

/// A run without newlines keeps the row and advances the column by its length.
pub proof fn lemma_pos_after_no_newline(row: int, col: int, s: Seq<char>)
    requires
        forall|i: int| 0 <= i < s.len() ==> s[i] != '\n',
    ensures
        pos_after(row, col, s) == (row, col + s.len()),
    decreases s.len(),
{
    if s.len() > 0 {
        lemma_pos_after_no_newline(row, col, s.drop_last());
        assert(s.last() != '\n');
    }
}

/// The reserved words of the language.
pub open spec fn is_keyword(s: Seq<char>) -> bool {
    s == "def"@ || s == "for"@ || s == "if"@ || s == "else"@
}

/// The keyword table a context carries: exactly the reserved words.
pub open spec fn keywords_wf(ks: Seq<&'static str>) -> bool {
    &&& ks.len() == 4
    &&& ks[0]@ == "def"@
    &&& ks[1]@ == "for"@
    &&& ks[2]@ == "if"@
    &&& ks[3]@ == "else"@
}

/// The whole parsing context: current row, column and character index in
/// the input, plus a live suffix view (`cursor`) of the input starting at
/// that index, and the keyword table.
pub struct ParsingContext<'inp> {
    /// 1-based row of the current position.
    pub row: usize,
    /// 1-based column of the current position.
    pub col: usize,
    /// Characters of the input already consumed.
    pub index: usize,
    /// The whole input.
    pub input: &'inp str,
    /// The not-yet-consumed suffix of the input.
    pub cursor: &'inp str,
    /// The reserved words consulted by keyword-aware parsers.
    pub keywords: Vec<&'static str>,
}

impl<'inp> ParsingContext<'inp> {
    /// The not-yet-consumed input, as a sequence of characters.
    pub open spec fn remaining(&self) -> Seq<char> {
        self.cursor@
    }

    /// Well-formedness: the cursor is exactly the suffix of the input at
    /// `index`, positions are 1-based and bounded, and the keyword table
    /// holds the reserved words.
    pub open spec fn wf(&self) -> bool {
        &&& self.index <= self.input@.len()
        &&& self.input@.len() < usize::MAX
        &&& self.cursor@ == self.input@.skip(self.index as int)
        &&& 1 <= self.row <= self.index + 1
        &&& 1 <= self.col <= self.index + 1
        &&& keywords_wf(self.keywords@)
    }
}

/// `next` is `prev` after consuming exactly `k` characters: same input and
/// keywords, index advanced by `k`, cursor shrunk by `k`, and row/column
/// moved across the consumed characters.
pub open spec fn stepped(prev: ParsingContext, next: ParsingContext, k: nat) -> bool {
    &&& next.input == prev.input
    &&& next.keywords == prev.keywords
    &&& k <= prev.cursor@.len()
    &&& next.index == prev.index + k
    &&& next.cursor@ == prev.cursor@.skip(k as int)
    &&& (next.row as int, next.col as int) == pos_after(
        prev.row as int,
        prev.col as int,
        prev.cursor@.take(k as int),
    )
}

/// Two consecutive consumptions compose.
pub proof fn lemma_stepped_trans(a: ParsingContext, b: ParsingContext, c: ParsingContext, k1: nat, k2: nat)
    requires
        stepped(a, b, k1),
        stepped(b, c, k2),
    ensures
        stepped(a, c, k1 + k2),
{
    assert(c.cursor@ =~= a.cursor@.skip((k1 + k2) as int));
    let s1 = a.cursor@.take(k1 as int);
    let s2 = b.cursor@.take(k2 as int);
    assert(a.cursor@.take((k1 + k2) as int) =~= s1 + s2);
    lemma_pos_after_concat(a.row as int, a.col as int, s1, s2);
}

/// Character-by-character equality of two strings.
pub fn str_eq(a: &str, b: &str) -> (r: bool)
    ensures
        r == (a@ == b@),
{
    let n = a.unicode_len();
    let m = b.unicode_len();
    if n != m {
        return false;
    }
    let mut i: usize = 0;
    let mut eq = true;
    while i < n && eq
        invariant
            i <= n,
            n == a@.len(),
            n == b@.len(),
            eq ==> forall|j: int| 0 <= j < i ==> a@[j] == b@[j],
            !eq ==> a@ != b@,
        decreases n - i + (if eq { 1int } else { 0int }),
    {
        if a.get_char(i) == b.get_char(i) {
            i = i + 1;
        } else {
            eq = false;
        }
    }
    if eq {
        assert(a@ =~= b@);
    }
    eq
}

impl<'inp> ParsingContext<'inp> {
    /// Peek the cursor and return its first character, if any.
    pub fn peek_char(&self) -> (r: Option<char>)
        requires
            self.wf(),
        ensures
            match r {
                Some(c) => self.remaining().len() > 0 && c == self.remaining()[0],
                None => self.remaining().len() == 0,
            },
    {
        if self.cursor.unicode_len() > 0 {
            Some(self.cursor.get_char(0))
        } else {
            None
        }
    }

    /// Whether `w` is one of the reserved words.
    pub fn contains_keyword(&self, w: &str) -> (r: bool)
        requires
            self.wf(),
        ensures
            r == is_keyword(w@),
    {
        str_eq(w, self.keywords[0]) || str_eq(w, self.keywords[1]) || str_eq(w, self.keywords[2])
            || str_eq(w, self.keywords[3])
    }

    /// The row, column, index and cursor at the moment: a snapshot that
    /// `roll_back_op` can restore.
    pub fn current_state(&self) -> (r: (usize, usize, usize, &'inp str))
        ensures
            r.0 == self.row,
            r.1 == self.col,
            r.2 == self.index,
            r.3 == self.cursor,
    {
        (self.row, self.col, self.index, self.cursor)
    }

    /// Roll the context back to a snapshot taken earlier on the same input:
    /// all four components are restored atomically.
    pub fn roll_back_op(&mut self, st: (usize, usize, usize, &'inp str))
        requires
            old(self).wf(),
            st.2 <= old(self).input@.len(),
            st.3@ == old(self).input@.skip(st.2 as int),
            1 <= st.0 <= st.2 + 1,
            1 <= st.1 <= st.2 + 1,
        ensures
            final(self).wf(),
            final(self).row == st.0,
            final(self).col == st.1,
            final(self).index == st.2,
            final(self).cursor == st.3,
            final(self).input == old(self).input,
            final(self).keywords == old(self).keywords,
    {
        self.row = st.0;
        self.col = st.1;
        self.index = st.2;
        self.cursor = st.3;
    }

    /// Consume exactly `k` characters of the cursor, tracking rows,
    /// columns and the suffix view.
    pub(crate) fn advance(&mut self, k: usize)
        requires
            old(self).wf(),
            k <= old(self).cursor@.len(),
        ensures
            final(self).wf(),
            stepped(*old(self), *final(self), k as nat),
            k == 0 ==> *final(self) == *old(self),
    {
        if k == 0 {
            assert(old(self).cursor@.take(0) =~= Seq::<char>::empty());
            assert(old(self).cursor@.skip(0) =~= old(self).cursor@);
            return ;
        }
        let ghost orig = *self;
        let rem_len = self.cursor.unicode_len();
        let mut j: usize = 0;
        while j < k
            invariant
                orig.wf(),
                j <= k <= rem_len == orig.cursor@.len(),
                self.input == orig.input,
                self.cursor == orig.cursor,
                self.index == orig.index,
                self.keywords == orig.keywords,
                (self.row as int, self.col as int) == pos_after(
                    orig.row as int,
                    orig.col as int,
                    orig.cursor@.take(j as int),
                ),
                self.row as int <= orig.row + j,
                self.col as int <= orig.col + j,
                1 <= self.row,
                1 <= self.col,
            decreases k - j,
        {
            let c = self.cursor.get_char(j);
            proof {
                let t = orig.cursor@.take(j + 1);
                assert(t.drop_last() =~= orig.cursor@.take(j as int));
                assert(t.last() == orig.cursor@[j as int]);
            }
            if c == '\n' {
                self.row = self.row + 1;
                self.col = 1;
            } else {
                self.col = self.col + 1;
            }
            j = j + 1;
        }
        self.index = self.index + k;
        let new_cursor = self.cursor.substring_char(k, rem_len);
        proof {
            assert(new_cursor@ =~= orig.cursor@.skip(k as int));
            assert(new_cursor@ =~= orig.input@.skip(orig.index + k));
        }
        self.cursor = new_cursor;
    }

    /// Discard the maximal run of whitespace at the cursor.
    pub fn eat_ws(&mut self)
        requires
            old(self).wf(),
        ensures
            final(self).wf(),
            stepped(*old(self), *final(self), run_len(old(self).cursor@, ws_pred())),
            final(self).remaining().len() > 0 ==> !is_ws_char(final(self).remaining()[0]),
            run_len(old(self).cursor@, ws_pred()) == 0 ==> *final(self) == *old(self),
    {
        let rem_len = self.cursor.unicode_len();
        let mut n: usize = 0;
        let mut stop = false;
        while n < rem_len && !stop
            invariant
                self == old(self),
                old(self).wf(),
                n <= rem_len == old(self).cursor@.len(),
                forall|j: int| 0 <= j < n ==> is_ws_char(old(self).cursor@[j]),
                stop ==> n < rem_len && !is_ws_char(old(self).cursor@[n as int]),
            decreases rem_len - n + (if stop { 0int } else { 1int }),
        {
            let c = self.cursor.get_char(n);
            if is_ws(c) {
                n = n + 1;
            } else {
                stop = true;
            }
        }
        proof {
            lemma_run_len_is(old(self).cursor@, ws_pred(), n as int);
            lemma_run_len_props(old(self).cursor@, ws_pred());
        }
        self.advance(n);
        proof {
            if self.remaining().len() > 0 {
                assert(self.remaining()[0] == old(self).cursor@[n as int]);
            }
        }
    }

    /// Build a context over `input`, with the reserved-word table, and
    /// with any leading whitespace already discarded.
    pub fn new(input: &'inp str) -> (r: Self)
        requires
            input@.len() < usize::MAX,
        ensures
            r.wf(),
            r.input == input,
            r.index as nat == run_len(input@, ws_pred()),
            r.remaining() == input@.skip(r.index as int),
            (r.row as int, r.col as int) == pos_after(1, 1, input@.take(r.index as int)),
    {
        let keywords: Vec<&'static str> = vec!["def", "for", "if", "else"];
        let mut s = Self { row: 1, col: 1, index: 0, input, cursor: input, keywords };
        proof {
            assert(input@.skip(0) =~= input@);
            assert(input@.take(0) =~= Seq::<char>::empty());
        }
        s.eat_ws();
        s
    }

    /// Consume exactly `n` characters and return them, if that many are
    /// available; otherwise leave the context untouched.
    pub fn eat_many(&mut self, n: usize) -> (r: Option<&'inp str>)
        requires
            old(self).wf(),
            1 <= n,
        ensures
            final(self).wf(),
            n <= old(self).cursor@.len() ==> {
                &&& stepped(*old(self), *final(self), n as nat)
                &&& (r matches Some(s) && s@ == old(self).cursor@.take(n as int))
            },
            n > old(self).cursor@.len() ==> r is None && *final(self) == *old(self),
    {
        let rem_len = self.cursor.unicode_len();
        if rem_len < n {
            None
        } else {
            let s = self.cursor.substring_char(0, n);
            proof {
                assert(s@ =~= old(self).cursor@.take(n as int));
            }
            self.advance(n);
            Some(s)
        }
    }

    /// Consume everything up to the next whitespace character (or the end
    /// of the input) and return it.
    pub fn eat_until_ws(&mut self) -> (r: &'inp str)
        requires
            old(self).wf(),
        ensures
            final(self).wf(),
            stepped(*old(self), *final(self), run_len(old(self).cursor@, nonws_pred())),
            r@ == old(self).cursor@.take(run_len(old(self).cursor@, nonws_pred()) as int),
            final(self).row == old(self).row,
            final(self).col == old(self).col + run_len(old(self).cursor@, nonws_pred()),
    {
        let rem_len = self.cursor.unicode_len();
        let mut n: usize = 0;
        let mut stop = false;
        while n < rem_len && !stop
            invariant
                self == old(self),
                old(self).wf(),
                n <= rem_len == old(self).cursor@.len(),
                forall|j: int| 0 <= j < n ==> !is_ws_char(old(self).cursor@[j]),
                stop ==> n < rem_len && is_ws_char(old(self).cursor@[n as int]),
            decreases rem_len - n + (if stop { 0int } else { 1int }),
        {
            let c = self.cursor.get_char(n);
            if is_ws(c) {
                stop = true;
            } else {
                n = n + 1;
            }
        }
        proof {
            lemma_run_len_is(old(self).cursor@, nonws_pred(), n as int);
            lemma_run_len_props(old(self).cursor@, nonws_pred());
        }
        let s = self.cursor.substring_char(0, n);
        proof {
            assert(s@ =~= old(self).cursor@.take(n as int));
        }
        self.advance(n);
        proof {
            let consumed = old(self).cursor@.take(n as int);
            assert forall|i: int| 0 <= i < consumed.len() implies consumed[i] != '\n' by {
                assert(!is_ws_char(old(self).cursor@[i]));
            }
            lemma_pos_after_no_newline(old(self).row as int, old(self).col as int, consumed);
        }
        s
    }

    /// Consume a whole type-expression span: a maximal run of
    /// characters allowed in type syntax, tracking a balanced
    /// angle-bracket depth, stopped by an unconditional stop character
    /// or the end of the input. Returns the span, or nothing (and
    /// consumes nothing) when a disallowed character appears or the
    /// brackets are unbalanced at the stop point. A comma inside nested
    /// brackets thus stays inside one span and is never mistaken for a
    /// separator at the wrong nesting level.
    #[verifier::loop_isolation(false)]
    pub fn consume_type_span(&mut self) -> (r: Option<&'inp str>)
        requires
            old(self).wf(),
        ensures
            final(self).wf(),
            match type_span(old(self).remaining()) {
                Some(k) => {
                    &&& (r matches Some(sp) && sp@ == old(self).remaining().take(k))
                    &&& stepped(*old(self), *final(self), k as nat)
                },
                None => r is None && *final(self) == *old(self),
            },
    {
        let rem_len = self.cursor.unicode_len();
        let mut i: usize = 0;
        let mut opens: usize = 0;
        let mut closes: usize = 0;
        let mut out: Option<usize> = None;
        let mut done = false;
        while !done
            invariant
                i <= rem_len,
                opens <= i,
                closes <= i,
                self == old(self),
                !done ==> type_span(old(self).remaining()) == type_span_from(
                    old(self).remaining(),
                    i as int,
                    opens as int - closes as int,
                ),
                done ==> match type_span(old(self).remaining()) {
                    Some(k) => out == Some(k as usize) && 0 <= k <= rem_len,
                    None => out is None,
                },
            decreases rem_len - i + (if done { 0int } else { 1int }),
        {
            if i == rem_len {
                if opens == closes {
                    out = Some(i);
                } else {
                    out = None;
                }
                done = true;
            } else {
                let c = self.cursor.get_char(i);
                if is_span_stop(c) {
                    if opens == closes {
                        out = Some(i);
                    } else {
                        out = None;
                    }
                    done = true;
                } else if !is_span(c) {
                    out = None;
                    done = true;
                } else {
                    if c == '<' {
                        opens = opens + 1;
                    } else if c == '>' {
                        closes = closes + 1;
                    }
                    i = i + 1;
                }
            }
        }
        match out {
            Some(k) => {
                let sp = self.cursor.substring_char(0, k);
                proof {
                    assert(sp@ =~= old(self).remaining().take(k as int));
                }
                self.advance(k);
                Some(sp)
            },
            None => None,
        }
    }
}

} // verus!
