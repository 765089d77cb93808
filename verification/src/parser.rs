//! The grammar engine: a recursive-descent parser for the
//! abbreviation language.  Positions count characters.  Token rules
//! carry exact contracts relating the token to the source text; the
//! phrase rules guarantee the structural well-formedness the tree
//! builder relies on, and progress through the input.

use vstd::prelude::*;
use vstd::string::StrSliceExecFns;

use crate::chars::{
    digit, ident_char, ident_start, is_digit, is_ident_char, is_ident_start, is_space, space,
};
use crate::model::{
    AttrStx, ElemStx, ExprStx as ExprModel, MultStx, OpStx, PropStx, TermStx, ValueStx,
    all_digits, num_token_wf, wf_elem, wf_expr, wf_term, wf_value,
};
use crate::syntax::{
    AttrSyntax, ElementSyntax, ExprSyntax, MultiplierSyntax, OpSyntax, PropSyntax, TermSyntax,
    ValueSyntax, attrs_stx_dv, elems_dv, lemma_elems_dv_pointwise, props_stx_dv, values_stx_dv,
};

verus! {

/// What the parser was looking for when it failed.
#[derive(Debug, Clone, Copy, PartialEq, Eq, Structural)]
pub enum ExpectedRule {
    Ident,
    Number,
    StringEnd,
    ValueToken,
    Term,
    Multiplier,
    AttrList,
    CloseBracket,
    CloseBrace,
    CloseParen,
    OperatorOrEnd,
}

/// A syntax error: the character position at which no rule matched,
/// and the rules that were expected there.
#[derive(Debug)]
pub struct SyntaxError {
    pub pos: usize,
    pub expected: Vec<ExpectedRule>,
}

fn fail(pos: usize, what: ExpectedRule) -> SyntaxError {
    let mut expected: Vec<ExpectedRule> = Vec::new();
    expected.push(what);
    SyntaxError { pos, expected }
}

/// Whether a line comment opens at `p`.
pub open spec fn comment_at(s: Seq<char>, p: int) -> bool {
    p + 1 < s.len() && s[p] == '/' && s[p + 1] == '/'
}


// ---------------------------------------------------------------------
// The grammar as a specification: a deterministic recursive-descent
// parse over the character sequence.  Each executable rule below is
// proved to return exactly what its spec counterpart defines.  The
// `next_pos` clamp keeps the definitions well-founded on their own;
// the executable proofs show it never alters a real position.
// ---------------------------------------------------------------------
/// Clamps a continuation position into `[lo, s.len()]`.
pub open spec fn next_pos(p: int, lo: int, s: Seq<char>) -> int {
    if lo > s.len() {
        s.len() as int
    } else if p < lo {
        lo
    } else if p > s.len() {
        s.len() as int
    } else {
        p
    }
}

/// The first position at or after `p` that ends a `//` comment: a
/// newline, or the end of input.
pub open spec fn spec_line_end(s: Seq<char>, p: int) -> int
    decreases s.len() - p,
{
    if p < 0 || p >= s.len() {
        p
    } else if s[p] == '\n' {
        p
    } else {
        spec_line_end(s, p + 1)
    }
}

/// The position after all whitespace and `//` line comments at `pos`.
pub open spec fn spec_skip(s: Seq<char>, pos: int) -> int
    decreases s.len() - pos,
{
    if pos < 0 || pos >= s.len() {
        pos
    } else if is_space(s[pos]) {
        spec_skip(s, pos + 1)
    } else if comment_at(s, pos) {
        spec_skip(s, next_pos(spec_line_end(s, pos + 2), pos + 2, s))
    } else {
        pos
    }
}

/// The first position at or after `p` that cannot continue an
/// identifier.
pub open spec fn spec_ident_end(s: Seq<char>, p: int) -> int
    decreases s.len() - p,
{
    if p < 0 || p >= s.len() {
        p
    } else if is_ident_char(s[p]) {
        spec_ident_end(s, p + 1)
    } else {
        p
    }
}

/// The identifier token at `pos`: its text and end position, or
/// nothing when no identifier starts here.
pub open spec fn spec_ident(s: Seq<char>, pos: int) -> Option<(Seq<char>, int)> {
    if 0 <= pos < s.len() && is_ident_start(s[pos]) {
        let e = spec_ident_end(s, pos + 1);
        Some((s.subrange(pos, e), e))
    } else {
        None
    }
}

/// The first position at or after `p` that is not a digit.
pub open spec fn spec_digits_end(s: Seq<char>, p: int) -> int
    decreases s.len() - p,
{
    if p < 0 || p >= s.len() {
        p
    } else if is_digit(s[p]) {
        spec_digits_end(s, p + 1)
    } else {
        p
    }
}

/// The number token at `pos`: an optional `-`, then one or more
/// digits, greedily.
pub open spec fn spec_number(s: Seq<char>, pos: int) -> Option<(Seq<char>, int)> {
    if !(0 <= pos < s.len()) {
        None
    } else {
        let d0 = if s[pos] == '-' {
            pos + 1
        } else {
            pos
        };
        if 0 <= d0 < s.len() && is_digit(s[d0]) {
            let e = spec_digits_end(s, d0 + 1);
            Some((s.subrange(pos, e), e))
        } else {
            None
        }
    }
}

/// The first position at or after `p` holding the quote `q`, or the
/// end of input.
pub open spec fn spec_quote_pos(s: Seq<char>, p: int, q: char) -> int
    decreases s.len() - p,
{
    if p < 0 || p >= s.len() {
        p
    } else if s[p] == q {
        p
    } else {
        spec_quote_pos(s, p + 1, q)
    }
}

/// The string literal at `pos`: its inner content and the position
/// after the closing quote, or nothing when no quote opens here or
/// the quote never closes.
pub open spec fn spec_string(s: Seq<char>, pos: int) -> Option<(Seq<char>, int)> {
    if 0 <= pos < s.len() && (s[pos] == '\'' || s[pos] == '"') {
        let e = spec_quote_pos(s, pos + 1, s[pos]);
        if e < s.len() {
            Some((s.subrange(pos + 1, e), e + 1))
        } else {
            None
        }
    } else {
        None
    }
}

/// Further `%`-separated segments after the first; a `%` that no
/// identifier follows is left unconsumed.
pub open spec fn spec_segments_more(s: Seq<char>, pos: int, acc: Seq<Seq<char>>) -> (
    Seq<Seq<char>>,
    int,
)
    decreases s.len() - pos,
{
    if 0 <= pos < s.len() && s[pos] == '%' {
        match spec_ident(s, pos + 1) {
            Some((seg, p)) => spec_segments_more(s, next_pos(p, pos + 2, s), acc.push(seg)),
            None => (acc, pos),
        }
    } else {
        (acc, pos)
    }
}

/// The binding path at `pos`: one identifier, then further
/// `%`-separated identifiers.
pub open spec fn spec_segments(s: Seq<char>, pos: int) -> Option<(Seq<Seq<char>>, int)> {
    match spec_ident(s, pos) {
        Some((seg, p)) => Some(spec_segments_more(s, p, seq![seg])),
        None => None,
    }
}

/// The value token at `pos`: binding, number, string, or identifier.
pub open spec fn spec_value(s: Seq<char>, pos: int) -> Option<(ValueStx, int)> {
    if !(0 <= pos < s.len()) {
        None
    } else if s[pos] == '@' {
        match spec_segments(s, pos + 1) {
            Some((segs, p)) => Some((ValueStx::Binding(segs), p)),
            None => None,
        }
    } else if s[pos] == '-' || is_digit(s[pos]) {
        match spec_number(s, pos) {
            Some((tok, p)) => Some((ValueStx::Number(tok), p)),
            None => None,
        }
    } else if s[pos] == '\'' || s[pos] == '"' {
        match spec_string(s, pos) {
            Some((inner, p)) => Some((ValueStx::Str(inner), p)),
            None => None,
        }
    } else if is_ident_start(s[pos]) {
        match spec_ident(s, pos) {
            Some((id, p)) => Some((ValueStx::Ident(id), p)),
            None => None,
        }
    } else {
        None
    }
}

/// The attribute entries after a `[`, accumulated until the `]`.
pub open spec fn spec_attr_list_loop(s: Seq<char>, pos: int, acc: Seq<AttrStx>) -> Option<
    (Seq<AttrStx>, int),
>
    decreases s.len() - pos,
{
    if !(0 <= pos < s.len()) {
        None
    } else if s[pos] == ']' {
        if acc.len() == 0 {
            None
        } else {
            Some((acc, pos + 1))
        }
    } else {
        match spec_ident(s, pos) {
            None => None,
            Some((name, p2)) => {
                let t = spec_skip(s, p2);
                if 0 <= t < s.len() && s[t] == '=' {
                    let t2 = spec_skip(s, t + 1);
                    match spec_value(s, t2) {
                        None => None,
                        Some((v, p3)) => spec_attr_list_loop(
                            s,
                            next_pos(spec_skip(s, p3), pos + 1, s),
                            acc.push(AttrStx { name, value: Some(v) }),
                        ),
                    }
                } else {
                    spec_attr_list_loop(
                        s,
                        next_pos(t, pos + 1, s),
                        acc.push(AttrStx { name, value: None }),
                    )
                }
            },
        }
    }
}

/// The bracketed attribute list after its `[`.
pub open spec fn spec_attr_list(s: Seq<char>, pos: int) -> Option<(Seq<AttrStx>, int)> {
    spec_attr_list_loop(s, spec_skip(s, pos), Seq::empty())
}

/// The node suffixes from `pos` on: `#id`, `.class`, at most one
/// attribute list, in any order, each preceded by optional trivia.
pub open spec fn spec_node_props(s: Seq<char>, pos: int, acc: Seq<PropStx>, seen: bool) -> Option<
    (Seq<PropStx>, int),
>
    decreases s.len() - pos,
{
    if !(0 <= pos <= s.len()) {
        None
    } else {
        let t = spec_skip(s, pos);
        if !(0 <= t < s.len()) {
            Some((acc, pos))
        } else if s[t] == '#' {
            match spec_ident(s, t + 1) {
                None => None,
                Some((id, p2)) => spec_node_props(
                    s,
                    next_pos(p2, pos + 1, s),
                    acc.push(PropStx::Id(id)),
                    seen,
                ),
            }
        } else if s[t] == '.' {
            match spec_ident(s, t + 1) {
                None => None,
                Some((class, p2)) => spec_node_props(
                    s,
                    next_pos(p2, pos + 1, s),
                    acc.push(PropStx::Class(class)),
                    seen,
                ),
            }
        } else if s[t] == '[' {
            if seen {
                None
            } else {
                match spec_attr_list(s, t + 1) {
                    None => None,
                    Some((list, p2)) => spec_node_props(
                        s,
                        next_pos(p2, pos + 1, s),
                        acc.push(PropStx::Attrs(list)),
                        true,
                    ),
                }
            }
        } else {
            Some((acc, pos))
        }
    }
}

/// The value tokens of a text node, accumulated until the `}`.
pub open spec fn spec_text_loop(s: Seq<char>, pos: int, acc: Seq<ValueStx>) -> Option<
    (Seq<ValueStx>, int),
>
    decreases s.len() - pos,
{
    if !(0 <= pos < s.len()) {
        None
    } else if s[pos] == '}' {
        if acc.len() == 0 {
            None
        } else {
            Some((acc, pos + 1))
        }
    } else {
        match spec_value(s, pos) {
            None => None,
            Some((v, p2)) => spec_text_loop(s, next_pos(spec_skip(s, p2), pos + 1, s), acc.push(v)),
        }
    }
}

/// The text node interior after its `{`.
pub open spec fn spec_text(s: Seq<char>, pos: int) -> Option<(Seq<ValueStx>, int)> {
    spec_text_loop(s, spec_skip(s, pos), Seq::empty())
}

/// The term at `pos`: a node, a text node, a node binding, or a
/// parenthesized group.
pub open spec fn spec_term(s: Seq<char>, pos: int) -> Option<(TermStx, int)>
    decreases s.len() - pos, 0int,
{
    if !(0 <= pos < s.len()) {
        None
    } else if s[pos] == '(' {
        let t = next_pos(spec_skip(s, pos + 1), pos + 1, s);
        match spec_expr(s, t) {
            None => None,
            Some((inner, p)) => {
                let t2 = spec_skip(s, p);
                if 0 <= t2 < s.len() && s[t2] == ')' {
                    Some((TermStx::Group(inner), t2 + 1))
                } else {
                    None
                }
            },
        }
    } else if s[pos] == '{' {
        match spec_text(s, pos + 1) {
            Some((vals, p)) => Some((TermStx::Text(vals), p)),
            None => None,
        }
    } else if s[pos] == '$' {
        match spec_segments(s, pos + 1) {
            Some((segs, p)) => Some((TermStx::NodeBinding(segs), p)),
            None => None,
        }
    } else if is_ident_start(s[pos]) {
        match spec_ident(s, pos) {
            None => None,
            Some((name, p)) => match spec_node_props(s, p, Seq::empty(), false) {
                None => None,
                Some((props, p2)) => Some((TermStx::Node { name, props }, p2)),
            },
        }
    } else {
        None
    }
}

/// The element at `pos`: a term, optionally `*` and a multiplier.
pub open spec fn spec_element(s: Seq<char>, pos: int) -> Option<(ElemStx, int)>
    decreases s.len() - pos, 1int,
{
    if !(0 <= pos < s.len()) {
        None
    } else {
        match spec_term(s, pos) {
            None => None,
            Some((term, p)) => {
                let t = spec_skip(s, p);
                if 0 <= t < s.len() && s[t] == '*' {
                    let t2 = spec_skip(s, t + 1);
                    if 0 <= t2 < s.len() && s[t2] == '@' {
                        match spec_segments(s, t2 + 1) {
                            Some((segs, p2)) => Some(
                                (ElemStx { term, mult: Some(MultStx::Binding(segs)) }, p2),
                            ),
                            None => None,
                        }
                    } else if 0 <= t2 < s.len() && (s[t2] == '-' || is_digit(s[t2])) {
                        match spec_number(s, t2) {
                            Some((tok, p2)) => Some(
                                (ElemStx { term, mult: Some(MultStx::Count(tok)) }, p2),
                            ),
                            None => None,
                        }
                    } else {
                        None
                    }
                } else {
                    Some((ElemStx { term, mult: None }, p))
                }
            },
        }
    }
}

/// The operator-element chain from `pos` on, extending the elements
/// and operators accumulated so far; stops before any character that
/// cannot continue the chain.
pub open spec fn spec_expr_tail(
    s: Seq<char>,
    pos: int,
    elems: Seq<ElemStx>,
    ops: Seq<OpStx>,
) -> Option<(ExprModel, int)>
    decreases s.len() - pos, 2int,
{
    if !(0 <= pos <= s.len()) {
        None
    } else {
        let t = spec_skip(s, pos);
        if !(0 <= t < s.len()) {
            Some((ExprModel { elems, ops }, pos))
        } else if s[t] == '>' || s[t] == '+' {
            let op = if s[t] == '>' {
                OpStx::Child
            } else {
                OpStx::Sibling
            };
            let t2 = next_pos(spec_skip(s, t + 1), pos, s);
            match spec_element(s, t2) {
                None => None,
                Some((el, p2)) => spec_expr_tail(
                    s,
                    next_pos(p2, pos + 1, s),
                    elems.push(el),
                    ops.push(op),
                ),
            }
        } else {
            Some((ExprModel { elems, ops }, pos))
        }
    }
}

/// The expression at `pos`: one element, then the operator chain.
pub open spec fn spec_expr(s: Seq<char>, pos: int) -> Option<(ExprModel, int)>
    decreases s.len() - pos, 3int,
{
    if !(0 <= pos < s.len()) {
        None
    } else {
        match spec_element(s, pos) {
            None => None,
            Some((el, p0)) => spec_expr_tail(s, next_pos(p0, pos, s), seq![el], Seq::empty()),
        }
    }
}

/// The parse of a whole input: trivia around one expression that must
/// reach the end of input.
pub open spec fn spec_parse_tree(s: Seq<char>) -> Option<ExprModel> {
    match spec_expr(s, spec_skip(s, 0)) {
        None => None,
        Some((e, p)) => if spec_skip(s, p) >= s.len() {
            Some(e)
        } else {
            None
        },
    }
}

/// Skips whitespace and `//` line comments; stops at the first
/// character that belongs to a token.
fn skip_trivia(s: &str, n: usize, pos: usize) -> (r: usize)
    requires
        n == s@.len(),
        pos <= n,
    ensures
        pos <= r <= n,
        r < n ==> !is_space(s@[r as int]) && !comment_at(s@, r as int),
        r as int == spec_skip(s@, pos as int),
    decreases n - pos,
{
    if pos >= n {
        return pos;
    }
    let c = s.get_char(pos);
    if space(c) {
        return skip_trivia(s, n, pos + 1);
    }
    if c == '/' && pos + 1 < n && s.get_char(pos + 1) == '/' {
        let mut p = pos + 2;
        #[verifier::loop_isolation(false)]
        while p < n && s.get_char(p) != '\n'
            invariant
                pos + 2 <= p <= n,
                spec_line_end(s@, pos + 2) == spec_line_end(s@, p as int),
            decreases n - p,
        {
            p = p + 1;
        }
        proof {
            assert(spec_line_end(s@, p as int) == p as int);
            assert(next_pos(spec_line_end(s@, pos + 2), pos + 2, s@) == p as int);
        }
        return skip_trivia(s, n, p);
    }
    pos
}

/// Parses an identifier: a letter or underscore, then greedily
/// letters, digits, `-` or `_`.  The result is exactly the consumed
/// span; it fails exactly when no identifier can start here.
fn parse_ident(s: &str, n: usize, pos: usize) -> (r: Result<(String, usize), SyntaxError>)
    requires
        n == s@.len(),
        pos <= n,
    ensures
        (match r {
            Ok((id, p)) => {
                &&& pos < p <= n
                &&& id@ == s@.subrange(pos as int, p as int)
                &&& is_ident_start(s@[pos as int])
                &&& forall|k: int| pos < k < p ==> is_ident_char(#[trigger] s@[k])
                &&& (p == n || !is_ident_char(s@[p as int]))
            },
            Err(_) => pos == n || !is_ident_start(s@[pos as int]),
        }),
        (match r {
            Ok((id, p)) => spec_ident(s@, pos as int) == Some((id@, p as int)),
            Err(_) => spec_ident(s@, pos as int) is None,
        }),
{
    if pos >= n || !ident_start(s.get_char(pos)) {
        return Err(fail(pos, ExpectedRule::Ident));
    }
    let mut p = pos + 1;
    #[verifier::loop_isolation(false)]
    while p < n && ident_char(s.get_char(p))
        invariant
            pos < p <= n,
            forall|k: int| pos < k < p ==> is_ident_char(#[trigger] s@[k]),
            spec_ident_end(s@, pos + 1) == spec_ident_end(s@, p as int),
        decreases n - p,
    {
        p = p + 1;
    }
    proof {
        assert(spec_ident_end(s@, p as int) == p as int);
    }
    let id = s.substring_char(pos, p).to_owned();
    Ok((id, p))
}

/// Parses a number token: an optional `-`, then greedily digits.  The
/// token is exactly the consumed span and has the number shape; it
/// fails exactly when no number can start here.
fn parse_number(s: &str, n: usize, pos: usize) -> (r: Result<(String, usize), SyntaxError>)
    requires
        n == s@.len(),
        pos <= n,
    ensures
        (match r {
            Ok((tok, p)) => {
                &&& pos < p <= n
                &&& tok@ == s@.subrange(pos as int, p as int)
                &&& num_token_wf(tok@)
                &&& (p == n || !is_digit(s@[p as int]))
            },
            Err(_) => !(pos < n && (is_digit(s@[pos as int]) || (s@[pos as int] == '-' && pos + 1
                < n && is_digit(s@[pos + 1])))),
        }),
        (match r {
            Ok((tok, p)) => spec_number(s@, pos as int) == Some((tok@, p as int)),
            Err(_) => spec_number(s@, pos as int) is None,
        }),
{
    if pos >= n {
        return Err(fail(pos, ExpectedRule::Number));
    }
    let first = s.get_char(pos);
    let neg = first == '-';
    if !neg && !digit(first) {
        return Err(fail(pos, ExpectedRule::Number));
    }
    let d0: usize = if neg {
        pos + 1
    } else {
        pos
    };
    if d0 >= n || !digit(s.get_char(d0)) {
        return Err(fail(d0, ExpectedRule::Number));
    }
    let mut p = d0 + 1;
    #[verifier::loop_isolation(false)]
    while p < n && digit(s.get_char(p))
        invariant
            d0 < p <= n,
            forall|k: int| d0 <= k < p ==> is_digit(#[trigger] s@[k]),
            spec_digits_end(s@, d0 + 1) == spec_digits_end(s@, p as int),
        decreases n - p,
    {
        p = p + 1;
    }
    proof {
        assert(spec_digits_end(s@, p as int) == p as int);
    }
    let tok = s.substring_char(pos, p).to_owned();
    proof {
        if neg {
            assert(tok@.subrange(1, tok@.len() as int) =~= s@.subrange(d0 as int, p as int));
            assert(all_digits(tok@.subrange(1, tok@.len() as int)));
        } else {
            assert(all_digits(tok@));
        }
    }
    Ok((tok, p))
}

/// Parses a `'...'` or `"..."` string literal; the result is the
/// inner content verbatim (backslashes are kept literally).  It fails
/// exactly when no quote opens here or the quote is never closed.
fn parse_string(s: &str, n: usize, pos: usize) -> (r: Result<(String, usize), SyntaxError>)
    requires
        n == s@.len(),
        pos <= n,
    ensures
        (match r {
            Ok((inner, p)) => {
                &&& pos + 2 <= p <= n
                &&& (s@[pos as int] == '\'' || s@[pos as int] == '"')
                &&& s@[p - 1] == s@[pos as int]
                &&& inner@ == s@.subrange(pos + 1, p - 1)
                &&& forall|k: int| pos < k < p - 1 ==> s@[k] != s@[pos as int]
            },
            Err(_) => pos == n || (s@[pos as int] != '\'' && s@[pos as int] != '"') || (forall|
                k: int,
            |
                pos < k < n ==> s@[k] != s@[pos as int]),
        }),
        (match r {
            Ok((inner, p)) => spec_string(s@, pos as int) == Some((inner@, p as int)),
            Err(_) => spec_string(s@, pos as int) is None,
        }),
{
    if pos >= n {
        return Err(fail(pos, ExpectedRule::ValueToken));
    }
    let q = s.get_char(pos);
    if q != '\'' && q != '"' {
        return Err(fail(pos, ExpectedRule::ValueToken));
    }
    let mut p = pos + 1;
    #[verifier::loop_isolation(false)]
    while p < n && s.get_char(p) != q
        invariant
            pos < p <= n,
            forall|k: int| pos < k < p ==> s@[k] != s@[pos as int],
            spec_quote_pos(s@, pos + 1, s@[pos as int]) == spec_quote_pos(
                s@,
                p as int,
                s@[pos as int],
            ),
        decreases n - p,
    {
        p = p + 1;
    }
    proof {
        assert(spec_quote_pos(s@, p as int, s@[pos as int]) == p as int);
    }
    if p >= n {
        return Err(fail(pos, ExpectedRule::StringEnd));
    }
    let inner = s.substring_char(pos + 1, p).to_owned();
    Ok((inner, p + 1))
}

/// Parses a binding path: an identifier, then `%`-separated further
/// identifiers, greedily but backtracking over a `%` that no
/// identifier follows.
fn parse_segments(s: &str, n: usize, pos: usize) -> (r: Result<(Vec<String>, usize), SyntaxError>)
    requires
        n == s@.len(),
        pos <= n,
    ensures
        (match r {
            Ok((segs, p)) => {
                &&& pos < p <= n
                &&& segs@.len() >= 1
                &&& crate::render::join_sep(segs.deep_view(), seq!['%']) == s@.subrange(
                    pos as int,
                    p as int,
                )
            },
            Err(_) => pos == n || !is_ident_start(s@[pos as int]),
        }),
        (match r {
            Ok((segs, p)) => spec_segments(s@, pos as int) == Some((segs.deep_view(), p as int)),
            Err(_) => spec_segments(s@, pos as int) is None,
        }),
{
    let (first, mut p) = match parse_ident(s, n, pos) {
        Ok(v) => v,
        Err(e) => {
            return Err(e);
        },
    };
    let mut segs: Vec<String> = Vec::new();
    let ghost p1 = p as int;
    segs.push(first);
    proof {
        assert(segs.deep_view() =~= seq![first@]);
    }
    #[verifier::loop_isolation(false)]
    while p < n && s.get_char(p) == '%'
        invariant
            pos < p <= n,
            segs@.len() >= 1,
            crate::render::join_sep(segs.deep_view(), seq!['%']) == s@.subrange(
                pos as int,
                p as int,
            ),
            spec_segments_more(s@, p1, seq![s@.subrange(pos as int, p1)])
                == spec_segments_more(s@, p as int, segs.deep_view()),
        decreases n - p,
    {
        match parse_ident(s, n, p + 1) {
            Ok((seg, p2)) => {
                let ghost gparts = segs.deep_view();
                let ghost gseg = seg@;
                segs.push(seg);
                proof {
                    assert(segs.deep_view() =~= gparts.push(gseg));
                    assert(segs.deep_view().drop_last() =~= gparts);
                    assert(s@.subrange(pos as int, p as int) + seq!['%'] + s@.subrange(
                        p + 1,
                        p2 as int,
                    ) =~= s@.subrange(pos as int, p2 as int));
                    assert(next_pos(p2 as int, p + 2, s@) == p2 as int);
                }
                p = p2;
            },
            Err(_) => {
                proof {
                    assert(spec_segments_more(s@, p as int, segs.deep_view()) == (
                        segs.deep_view(),
                        p as int,
                    ));
                }
                return Ok((segs, p));
            },
        }
    }
    proof {
        assert(spec_segments_more(s@, p as int, segs.deep_view()) == (
            segs.deep_view(),
            p as int,
        ));
    }
    Ok((segs, p))
}

/// Parses one value token: binding, number, string, or identifier.
fn parse_value(s: &str, n: usize, pos: usize) -> (r: Result<(ValueSyntax, usize), SyntaxError>)
    requires
        n == s@.len(),
        pos <= n,
    ensures
        (match r {
            Ok((v, p)) => {
                &&& pos < p <= n
                &&& wf_value(v.dv())
                &&& spec_value(s@, pos as int) == Some((v.dv(), p as int))
            },
            Err(_) => spec_value(s@, pos as int) is None,
        }),
{
    if pos >= n {
        return Err(fail(pos, ExpectedRule::ValueToken));
    }
    let c = s.get_char(pos);
    if c == '@' {
        let (segs, p) = match parse_segments(s, n, pos + 1) {
            Ok(v) => v,
            Err(e) => {
                return Err(e);
            },
        };
        Ok((ValueSyntax::Binding(segs), p))
    } else if c == '-' || digit(c) {
        let (tok, p) = match parse_number(s, n, pos) {
            Ok(v) => v,
            Err(e) => {
                return Err(e);
            },
        };
        Ok((ValueSyntax::Number(tok), p))
    } else if c == '\'' || c == '"' {
        let (inner, p) = match parse_string(s, n, pos) {
            Ok(v) => v,
            Err(e) => {
                return Err(e);
            },
        };
        Ok((ValueSyntax::Str(inner), p))
    } else if ident_start(c) {
        let (id, p) = match parse_ident(s, n, pos) {
            Ok(v) => v,
            Err(e) => {
                return Err(e);
            },
        };
        Ok((ValueSyntax::Ident(id), p))
    } else {
        Err(fail(pos, ExpectedRule::ValueToken))
    }
}

/// Parses a bracketed attribute list after its `[`: one or more
/// `name` or `name = value` entries, whitespace-separated.
fn parse_attr_list(s: &str, n: usize, pos: usize) -> (r: Result<
    (Vec<AttrSyntax>, usize),
    SyntaxError,
>)
    requires
        n == s@.len(),
        pos <= n,
    ensures
        (match r {
            Ok((list, p)) => {
                &&& pos <= p <= n
                &&& crate::model::wf_attrs(attrs_stx_dv(list@))
                &&& spec_attr_list(s@, pos as int) == Some((attrs_stx_dv(list@), p as int))
            },
            Err(_) => spec_attr_list(s@, pos as int) is None,
        }),
{
    let mut list: Vec<AttrSyntax> = Vec::new();
    let mut p = skip_trivia(s, n, pos);
    proof {
        assert(attrs_stx_dv(list@) =~= Seq::<crate::model::AttrStx>::empty());
    }
    loop
        invariant
            n == s@.len(),
            pos <= p <= n,
            crate::model::wf_attrs(attrs_stx_dv(list@)),
            spec_attr_list(s@, pos as int) == spec_attr_list_loop(
                s@,
                p as int,
                attrs_stx_dv(list@),
            ),
        decreases n - p,
    {
        let ghost pold = p as int;
        if p >= n {
            return Err(fail(p, ExpectedRule::CloseBracket));
        }
        if s.get_char(p) == ']' {
            if list.len() == 0 {
                return Err(fail(p, ExpectedRule::Ident));
            }
            return Ok((list, p + 1));
        }
        let (name, p2) = match parse_ident(s, n, p) {
            Ok(v) => v,
            Err(e) => {
                return Err(e);
            },
        };
        let t = skip_trivia(s, n, p2);
        let ghost glist = attrs_stx_dv(list@);
        if t < n && s.get_char(t) == '=' {
            let t2 = skip_trivia(s, n, t + 1);
            let (v, p3) = match parse_value(s, n, t2) {
                Ok(v) => v,
                Err(e) => {
                    return Err(e);
                },
            };
            let attr = AttrSyntax { name, value: Some(v) };
            let ghost gattr = attr.dv();
            list.push(attr);
            proof {
                assert(attrs_stx_dv(list@) =~= glist.push(gattr));
            }
            p = skip_trivia(s, n, p3);
            proof {
                assert(next_pos(p as int, pold + 1, s@) == p as int);
                assert(spec_attr_list_loop(s@, pold, glist) == spec_attr_list_loop(
                    s@,
                    p as int,
                    attrs_stx_dv(list@),
                ));
            }
        } else {
            let attr = AttrSyntax { name, value: None };
            let ghost gattr = attr.dv();
            list.push(attr);
            proof {
                assert(attrs_stx_dv(list@) =~= glist.push(gattr));
            }
            p = t;
            proof {
                assert(next_pos(p as int, pold + 1, s@) == p as int);
                assert(spec_attr_list_loop(s@, pold, glist) == spec_attr_list_loop(
                    s@,
                    p as int,
                    attrs_stx_dv(list@),
                ));
            }
        }
    }
}

/// Parses a node after its name: any order of `#id`, `.class` and at
/// most one bracketed attribute list.
fn parse_node_props(s: &str, n: usize, pos: usize) -> (r: Result<
    (Vec<PropSyntax>, usize),
    SyntaxError,
>)
    requires
        n == s@.len(),
        pos <= n,
    ensures
        (match r {
            Ok((props, p)) => {
                &&& pos <= p <= n
                &&& crate::model::wf_props(props_stx_dv(props@))
                &&& spec_node_props(s@, pos as int, Seq::empty(), false) == Some(
                    (props_stx_dv(props@), p as int),
                )
            },
            Err(_) => spec_node_props(s@, pos as int, Seq::empty(), false) is None,
        }),
{
    let mut props: Vec<PropSyntax> = Vec::new();
    let mut p = pos;
    let mut seen_attrs = false;
    proof {
        assert(props_stx_dv(props@) =~= Seq::<crate::model::PropStx>::empty());
    }
    loop
        invariant
            n == s@.len(),
            pos <= p <= n,
            crate::model::wf_props(props_stx_dv(props@)),
            spec_node_props(s@, pos as int, Seq::empty(), false) == spec_node_props(
                s@,
                p as int,
                props_stx_dv(props@),
                seen_attrs,
            ),
        decreases n - p,
    {
        let ghost pold = p as int;
        let ghost gseen = seen_attrs;
        let t = skip_trivia(s, n, p);
        if t >= n {
            return Ok((props, p));
        }
        let c = s.get_char(t);
        let ghost gprops = props_stx_dv(props@);
        if c == '#' {
            let (id, p2) = match parse_ident(s, n, t + 1) {
                Ok(v) => v,
                Err(e) => {
                    return Err(e);
                },
            };
            let prop = PropSyntax::Id(id);
            let ghost gprop = prop.dv();
            props.push(prop);
            proof {
                assert(props_stx_dv(props@) =~= gprops.push(gprop));
            }
            p = p2;
            proof {
                assert(next_pos(p as int, pold + 1, s@) == p as int);
                assert(spec_node_props(s@, pold, gprops, gseen) == spec_node_props(
                    s@,
                    p as int,
                    props_stx_dv(props@),
                    seen_attrs,
                ));
            }
        } else if c == '.' {
            let (class, p2) = match parse_ident(s, n, t + 1) {
                Ok(v) => v,
                Err(e) => {
                    return Err(e);
                },
            };
            let prop = PropSyntax::Class(class);
            let ghost gprop = prop.dv();
            props.push(prop);
            proof {
                assert(props_stx_dv(props@) =~= gprops.push(gprop));
            }
            p = p2;
            proof {
                assert(next_pos(p as int, pold + 1, s@) == p as int);
                assert(spec_node_props(s@, pold, gprops, gseen) == spec_node_props(
                    s@,
                    p as int,
                    props_stx_dv(props@),
                    seen_attrs,
                ));
            }
        } else if c == '[' {
            if seen_attrs {
                return Err(fail(t, ExpectedRule::OperatorOrEnd));
            }
            seen_attrs = true;
            let (list, p2) = match parse_attr_list(s, n, t + 1) {
                Ok(v) => v,
                Err(e) => {
                    return Err(e);
                },
            };
            let prop = PropSyntax::Attrs(list);
            let ghost gprop = prop.dv();
            props.push(prop);
            proof {
                assert(props_stx_dv(props@) =~= gprops.push(gprop));
            }
            p = p2;
            proof {
                assert(next_pos(p as int, pold + 1, s@) == p as int);
                assert(spec_node_props(s@, pold, gprops, gseen) == spec_node_props(
                    s@,
                    p as int,
                    props_stx_dv(props@),
                    seen_attrs,
                ));
            }
        } else {
            return Ok((props, p));
        }
    }
}

/// Parses a text node after its `{`: one or more whitespace-separated
/// value tokens, closed by `}`.
fn parse_text_node(s: &str, n: usize, pos: usize) -> (r: Result<
    (Vec<ValueSyntax>, usize),
    SyntaxError,
>)
    requires
        n == s@.len(),
        pos <= n,
    ensures
        (match r {
            Ok((vals, p)) => {
                &&& pos <= p <= n
                &&& vals@.len() >= 1
                &&& crate::model::wf_values(values_stx_dv(vals@))
                &&& spec_text(s@, pos as int) == Some((values_stx_dv(vals@), p as int))
            },
            Err(_) => spec_text(s@, pos as int) is None,
        }),
{
    let mut vals: Vec<ValueSyntax> = Vec::new();
    let mut p = skip_trivia(s, n, pos);
    proof {
        assert(values_stx_dv(vals@) =~= Seq::<crate::model::ValueStx>::empty());
    }
    loop
        invariant
            n == s@.len(),
            pos <= p <= n,
            crate::model::wf_values(values_stx_dv(vals@)),
            spec_text(s@, pos as int) == spec_text_loop(s@, p as int, values_stx_dv(vals@)),
        decreases n - p,
    {
        let ghost pold = p as int;
        if p >= n {
            return Err(fail(p, ExpectedRule::CloseBrace));
        }
        if s.get_char(p) == '}' {
            if vals.len() == 0 {
                return Err(fail(p, ExpectedRule::ValueToken));
            }
            return Ok((vals, p + 1));
        }
        let ghost gvals = values_stx_dv(vals@);
        let (v, p2) = match parse_value(s, n, p) {
            Ok(v) => v,
            Err(e) => {
                return Err(e);
            },
        };
        let ghost gv = v.dv();
        vals.push(v);
        proof {
            assert(values_stx_dv(vals@) =~= gvals.push(gv));
        }
        p = skip_trivia(s, n, p2);
        proof {
            assert(next_pos(p as int, pold + 1, s@) == p as int);
            assert(spec_text_loop(s@, pold, gvals) == spec_text_loop(
                s@,
                p as int,
                values_stx_dv(vals@),
            ));
        }
    }
}

/// Parses one term: a node, a text node, a node binding, or a
/// parenthesized group.
fn parse_term(s: &str, n: usize, pos: usize) -> (r: Result<(TermSyntax, usize), SyntaxError>)
    requires
        n == s@.len(),
        pos <= n,
    ensures
        (match r {
            Ok((t, p)) => {
                &&& pos < p <= n
                &&& wf_term(t.dv())
                &&& spec_term(s@, pos as int) == Some((t.dv(), p as int))
            },
            Err(_) => spec_term(s@, pos as int) is None,
        }),
    decreases n - pos, 0int,
{
    if pos >= n {
        return Err(fail(pos, ExpectedRule::Term));
    }
    let c = s.get_char(pos);
    if c == '(' {
        let t = skip_trivia(s, n, pos + 1);
        proof {
            assert(next_pos(spec_skip(s@, pos + 1), pos + 1, s@) == t as int);
        }
        let (inner, p) = match parse_expr(s, n, t) {
            Ok(v) => v,
            Err(e) => {
                return Err(e);
            },
        };
        let t2 = skip_trivia(s, n, p);
        if t2 >= n || s.get_char(t2) != ')' {
            return Err(fail(t2, ExpectedRule::CloseParen));
        }
        Ok((TermSyntax::Group(inner), t2 + 1))
    } else if c == '{' {
        let (vals, p) = match parse_text_node(s, n, pos + 1) {
            Ok(v) => v,
            Err(e) => {
                return Err(e);
            },
        };
        Ok((TermSyntax::Text(vals), p))
    } else if c == '$' {
        let (segs, p) = match parse_segments(s, n, pos + 1) {
            Ok(v) => v,
            Err(e) => {
                return Err(e);
            },
        };
        Ok((TermSyntax::NodeBinding(segs), p))
    } else if ident_start(c) {
        let (name, p) = match parse_ident(s, n, pos) {
            Ok(v) => v,
            Err(e) => {
                return Err(e);
            },
        };
        let (props, p2) = match parse_node_props(s, n, p) {
            Ok(v) => v,
            Err(e) => {
                return Err(e);
            },
        };
        Ok((TermSyntax::Node { name, props }, p2))
    } else {
        Err(fail(pos, ExpectedRule::Term))
    }
}

/// Parses one element: a term, optionally followed by `*` and a
/// numeric or binding multiplier.
fn parse_element(s: &str, n: usize, pos: usize) -> (r: Result<
    (ElementSyntax, usize),
    SyntaxError,
>)
    requires
        n == s@.len(),
        pos <= n,
    ensures
        (match r {
            Ok((el, p)) => {
                &&& pos < p <= n
                &&& wf_elem(el.dv())
                &&& spec_element(s@, pos as int) == Some((el.dv(), p as int))
            },
            Err(_) => spec_element(s@, pos as int) is None,
        }),
    decreases n - pos, 1int,
{
    let (term, p) = match parse_term(s, n, pos) {
        Ok(v) => v,
        Err(e) => {
            return Err(e);
        },
    };
    let t = skip_trivia(s, n, p);
    if t < n && s.get_char(t) == '*' {
        let t2 = skip_trivia(s, n, t + 1);
        if t2 >= n {
            return Err(fail(t2, ExpectedRule::Multiplier));
        }
        let c = s.get_char(t2);
        if c == '@' {
            let (segs, p2) = match parse_segments(s, n, t2 + 1) {
                Ok(v) => v,
                Err(e) => {
                    return Err(e);
                },
            };
            Ok((ElementSyntax { term, mult: Some(MultiplierSyntax::Binding(segs)) }, p2))
        } else if c == '-' || digit(c) {
            let (tok, p2) = match parse_number(s, n, t2) {
                Ok(v) => v,
                Err(e) => {
                    return Err(e);
                },
            };
            Ok((ElementSyntax { term, mult: Some(MultiplierSyntax::Count(tok)) }, p2))
        } else {
            Err(fail(t2, ExpectedRule::Multiplier))
        }
    } else {
        Ok((ElementSyntax { term, mult: None }, p))
    }
}

/// Parses an expression: elements chained left to right by `>` or
/// `+`; stops before a closing parenthesis or any other character
/// that cannot continue the chain.
fn parse_expr(s: &str, n: usize, pos: usize) -> (r: Result<(ExprSyntax, usize), SyntaxError>)
    requires
        n == s@.len(),
        pos <= n,
    ensures
        (match r {
            Ok((e, p)) => {
                &&& pos < p <= n
                &&& wf_expr(e.dv())
                &&& spec_expr(s@, pos as int) == Some((e.dv(), p as int))
            },
            Err(_) => spec_expr(s@, pos as int) is None,
        }),
    decreases n - pos, 2int,
{
    let (first, p0) = match parse_element(s, n, pos) {
        Ok(v) => v,
        Err(e) => {
            return Err(e);
        },
    };
    let ghost gfirst = first.dv();
    let mut elems: Vec<ElementSyntax> = Vec::new();
    let mut ops: Vec<OpSyntax> = Vec::new();
    elems.push(first);
    let mut p = p0;
    proof {
        lemma_elems_dv_pointwise(elems@);
        assert(elems_dv(elems@) =~= seq![gfirst]);
        assert(ops@.map(|i: int, o: OpSyntax| o.dv()) =~= Seq::<crate::model::OpStx>::empty());
        assert(next_pos(p0 as int, pos as int, s@) == p0 as int);
    }
    #[verifier::loop_isolation(false)]
    loop
        invariant
            n == s@.len(),
            pos < p <= n,
            elems@.len() == ops@.len() + 1,
            crate::model::wf_elems(elems_dv(elems@)),
            spec_expr(s@, pos as int) == spec_expr_tail(
                s@,
                p as int,
                elems_dv(elems@),
                ops@.map(|i: int, o: OpSyntax| o.dv()),
            ),
        decreases n - p,
    {
        let ghost pold = p as int;
        let t = skip_trivia(s, n, p);
        if t >= n {
            let e = ExprSyntax { elems, ops };
            proof {
                lemma_elems_dv_pointwise(e.elems@);
                assert(spec_expr_tail(
                    s@,
                    p as int,
                    elems_dv(e.elems@),
                    e.ops@.map(|i: int, o: OpSyntax| o.dv()),
                ) == Some((e.dv(), p as int)));
            }
            return Ok((e, p));
        }
        let c = s.get_char(t);
        let op = if c == '>' {
            OpSyntax::Child
        } else if c == '+' {
            OpSyntax::Sibling
        } else {
            let e = ExprSyntax { elems, ops };
            proof {
                lemma_elems_dv_pointwise(e.elems@);
                assert(spec_expr_tail(
                    s@,
                    p as int,
                    elems_dv(e.elems@),
                    e.ops@.map(|i: int, o: OpSyntax| o.dv()),
                ) == Some((e.dv(), p as int)));
            }
            return Ok((e, p));
        };
        let t2 = skip_trivia(s, n, t + 1);
        proof {
            assert(next_pos(t2 as int, pold, s@) == t2 as int);
        }
        let (el, p2) = match parse_element(s, n, t2) {
            Ok(v) => v,
            Err(e) => {
                return Err(e);
            },
        };
        let ghost gel = el.dv();
        let ghost golds = elems@;
        let ghost gops = ops@.map(|i: int, o: OpSyntax| o.dv());
        ops.push(op);
        elems.push(el);
        proof {
            lemma_elems_dv_pointwise(golds);
            lemma_elems_dv_pointwise(elems@);
            assert forall|k: int| 0 <= k < elems_dv(elems@).len() implies wf_elem(
                #[trigger] elems_dv(elems@)[k],
            ) by {
                assert(elems_dv(elems@)[k] == elems@[k].dv());
                if k < golds.len() {
                    assert(elems@[k] == golds[k]);
                    assert(elems_dv(golds)[k] == golds[k].dv());
                    assert(wf_elem(elems_dv(golds)[k]));
                } else {
                    assert(elems@[k] == el);
                }
            }
            assert forall|k: int| 0 <= k < elems_dv(elems@).len() implies #[trigger] elems_dv(
                elems@,
            )[k] == elems_dv(golds).push(gel)[k] by {
                assert(elems_dv(elems@)[k] == elems@[k].dv());
                if k < golds.len() {
                    assert(elems@[k] == golds[k]);
                    assert(elems_dv(golds)[k] == golds[k].dv());
                } else {
                    assert(elems@[k] == el);
                }
            }
            assert(elems_dv(elems@) =~= elems_dv(golds).push(gel));
            assert(ops@.map(|i: int, o: OpSyntax| o.dv()) =~= gops.push(op.dv()));
            assert(next_pos(p2 as int, pold + 1, s@) == p2 as int);
        }
        p = p2;
    }
}

/// The parser for the abbreviation language.
#[derive(Debug)]
pub struct SyntaxParser;

impl SyntaxParser {
    /// Parses a whole input: leading and trailing trivia around one
    /// expression, which must consume everything up to end of input.
    pub fn parse_tree(text: &str) -> (r: Result<ExprSyntax, SyntaxError>)
        ensures
            (match r {
                Ok(e) => wf_expr(e.dv()) && spec_parse_tree(text@) == Some(e.dv()),
                Err(_) => spec_parse_tree(text@) is None,
            }),
    {
        let n = text.unicode_len();
        let start = skip_trivia(text, n, 0);
        let (e, p) = match parse_expr(text, n, start) {
            Ok(v) => v,
            Err(er) => {
                return Err(er);
            },
        };
        let t = skip_trivia(text, n, p);
        if t < n {
            return Err(fail(t, ExpectedRule::OperatorOrEnd));
        }
        Ok(e)
    }

    /// Parses a single identifier token at the start of the input,
    /// ignoring what follows it.
    pub fn parse_ident_prefix(text: &str) -> (r: Result<String, SyntaxError>)
        ensures
            (match r {
                Ok(id) => {
                    &&& text@.len() > 0
                    &&& is_ident_start(text@[0])
                    &&& id@.len() > 0
                    &&& id@[0] == text@[0]
                    &&& (spec_ident(text@, 0) matches Some(pr) && pr.0 == id@)
                },
                Err(_) => spec_ident(text@, 0) is None,
            }),
    {
        let n = text.unicode_len();
        match parse_ident(text, n, 0) {
            Ok((id, _)) => {
                proof {
                    assert(id@[0] == text@.subrange(0, id@.len() as int)[0]);
                }
                Ok(id)
            },
            Err(e) => Err(e),
        }
    }

    /// Parses a node (name and suffixes) at the start of the input,
    /// ignoring what follows it.
    pub fn parse_node_prefix(text: &str) -> (r: Result<(String, Vec<PropSyntax>), SyntaxError>)
        ensures
            (match r {
                Ok((name, props)) => crate::model::wf_props(props_stx_dv(props@)),
                Err(_) => true,
            }),
            (match spec_term(text@, 0) {
                Some((TermStx::Node { name, props }, _)) => (r matches Ok(x) && x.0@ == name
                    && props_stx_dv(x.1@) == props),
                _ => r is Err,
            }),
    {
        let n = text.unicode_len();
        match parse_term(text, n, 0) {
            Ok((TermSyntax::Node { name, props }, _)) => Ok((name, props)),
            Ok(_) => Err(fail(0, ExpectedRule::Ident)),
            Err(e) => Err(e),
        }
    }
}

} // verus!
