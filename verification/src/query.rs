//! Query expressions (RFC 2167 §3.4) and their parser.
//!
//! ```text
//! query            = query-string / attribute-query / query bin-boolean query
//! query-char       = <any-char, except """, space, tab>
//! query-string     = ["*"] 1*query-char ["*"] /
//!                    """ ["*"] 1*quoted-query-char ["*"] """
//! attribute-query  = attribute-name "=" query-string
//! bin-boolean      = "and" / "or"
//! ```
//!
//! Besides the grammar, `attr!=value` is accepted, and two terms written
//! side by side mean their conjunction. Boolean operators are
//! case-insensitive, left-associative and of equal precedence. A leading
//! class name is not split off by the parser: [`Query::with_class_if`]
//! does that with a caller-supplied class test.

use vstd::prelude::*;

use crate::error::Error;
use crate::text::{
    chars_of, chars_range, eq_ignore_case, is_ascii_alnum, is_blank, range_eq_ignore_case,
    string_of_range, trim, trim_bounds, Blanks,
};
use crate::wire::code::ResponseCode;

verus! {

/// Match style of a [`Value`].
#[derive(Debug, Clone, Copy, PartialEq, Eq)]
pub enum ValueKind {
    /// Exact match.
    Exact,
    /// `foo*`: prefix match.
    Prefix,
    /// `*foo`: suffix match.
    Suffix,
    /// `*foo*`: substring match.
    Substring,
    /// Quoted literal: exact, `*` included.
    Quoted,
}

/// A query value, possibly wildcarded or quoted.
#[derive(Debug, Clone, PartialEq, Eq)]
pub struct Value {
    /// Text without surrounding quotes or wildcard `*`s.
    pub text: String,
    /// Match style.
    pub kind: ValueKind,
}

/// One leaf of a query.
#[derive(Debug, Clone, PartialEq, Eq)]
pub enum Term {
    /// `attr=value`.
    AttrEq {
        /// Attribute name.
        attr: String,
        /// Right-hand value.
        value: Value,
    },
    /// `attr!=value`.
    AttrNe {
        /// Attribute name.
        attr: String,
        /// Right-hand value.
        value: Value,
    },
    /// A bare value matched against any attribute.
    Value(Value),
}

/// Boolean expression tree.
#[derive(Debug, PartialEq, Eq)]
pub enum Expr {
    /// A leaf term.
    Term(Term),
    /// `lhs and rhs`.
    And(Box<Expr>, Box<Expr>),
    /// `lhs or rhs`.
    Or(Box<Expr>, Box<Expr>),
}

/// Parsed query expression with an optional class scope.
#[derive(Debug, PartialEq, Eq)]
pub struct Query {
    /// Optional leading class scope; `None` from [`Query::parse`].
    pub class: Option<String>,
    /// Top-level expression.
    pub expr: Expr,
    /// The text the parser was given.
    pub raw: String,
}

/// A value as values.
pub struct SpecValue {
    pub text: Seq<char>,
    pub kind: ValueKind,
}

/// A term as values.
pub enum SpecTerm {
    AttrEq { attr: Seq<char>, value: SpecValue },
    AttrNe { attr: Seq<char>, value: SpecValue },
    Value(SpecValue),
}

/// An expression as values.
pub enum SpecExpr {
    Term(SpecTerm),
    And(Box<SpecExpr>, Box<SpecExpr>),
    Or(Box<SpecExpr>, Box<SpecExpr>),
}

/// A query as values.
pub struct SpecQuery {
    pub class: Option<Seq<char>>,
    pub expr: SpecExpr,
    pub raw: Seq<char>,
}

impl View for Value {
    type V = SpecValue;

    open spec fn view(&self) -> SpecValue {
        SpecValue { text: self.text@, kind: self.kind }
    }
}

impl View for Term {
    type V = SpecTerm;

    open spec fn view(&self) -> SpecTerm {
        match self {
            Term::AttrEq { attr, value } => SpecTerm::AttrEq { attr: attr@, value: value@ },
            Term::AttrNe { attr, value } => SpecTerm::AttrNe { attr: attr@, value: value@ },
            Term::Value(v) => SpecTerm::Value(v@),
        }
    }
}

/// The values of an expression tree.
pub open spec fn expr_view(e: Expr) -> SpecExpr
    decreases e,
{
    match e {
        Expr::Term(t) => SpecExpr::Term(t@),
        Expr::And(l, r) => SpecExpr::And(Box::new(expr_view(*l)), Box::new(expr_view(*r))),
        Expr::Or(l, r) => SpecExpr::Or(Box::new(expr_view(*l)), Box::new(expr_view(*r))),
    }
}

impl View for Expr {
    type V = SpecExpr;

    open spec fn view(&self) -> SpecExpr {
        expr_view(*self)
    }
}

impl View for Query {
    type V = SpecQuery;

    open spec fn view(&self) -> SpecQuery {
        SpecQuery {
            class: match self.class {
                Some(c) => Some(c@),
                None => None,
            },
            expr: self.expr@,
            raw: self.raw@,
        }
    }
}

/// Why a query text is refused.
pub enum QueryFault {
    /// Malformed text, with the detail reported to the client.
    Syntax(Seq<char>),
    /// A text on which the byte-wise keyword test would cut a character
    /// apart (possible only with non-ASCII text); excluded from parsing.
    SplitChar,
}

/// A parse result: the value and the position after it.
pub type Parsed<T> = Result<(T, int), QueryFault>;

/// The first position at or after `p` that is not a space or tab.
pub open spec fn ws_end(s: Seq<char>, p: int) -> int
    decreases s.len() - p,
{
    if p < 0 || p >= s.len() || !is_blank(s[p]) {
        p
    } else {
        ws_end(s, p + 1)
    }
}

/// A character of an attribute name.
pub open spec fn is_id_char(c: char) -> bool {
    is_ascii_alnum(c) || c == '_' || c == '-'
}

/// The first position at or after `p` that is not an attribute-name
/// character.
pub open spec fn id_end(s: Seq<char>, p: int) -> int
    decreases s.len() - p,
{
    if p < 0 || p >= s.len() || !is_id_char(s[p]) {
        p
    } else {
        id_end(s, p + 1)
    }
}

/// A character that ends an unquoted query string.
pub open spec fn ends_query_string(c: char) -> bool {
    c == '"' || c == ' ' || c == '\t'
}

/// The first position at or after `p` that ends an unquoted query string.
pub open spec fn qs_end(s: Seq<char>, p: int) -> int
    decreases s.len() - p,
{
    if p < 0 || p >= s.len() || ends_query_string(s[p]) {
        p
    } else {
        qs_end(s, p + 1)
    }
}

/// The first `"` at or after `p`, or the end.
pub open spec fn quote_end(s: Seq<char>, p: int) -> int
    decreases s.len() - p,
{
    if p < 0 || p >= s.len() || s[p] == '"' {
        p
    } else {
        quote_end(s, p + 1)
    }
}

/// The match style given by leading and trailing `*`.
pub open spec fn kind_of(leading: bool, trailing: bool) -> ValueKind {
    if !leading && !trailing {
        ValueKind::Exact
    } else if !leading && trailing {
        ValueKind::Prefix
    } else if leading && !trailing {
        ValueKind::Suffix
    } else {
        ValueKind::Substring
    }
}

/// An unquoted `["*"] 1*query-char ["*"]` at `p`.
pub open spec fn parse_query_string(s: Seq<char>, p: int) -> Parsed<SpecValue> {
    let leading = 0 <= p < s.len() && s[p] == '*';
    let start = if leading {
        p + 1
    } else {
        p
    };
    let e = qs_end(s, start);
    let raw = s.subrange(start, e);
    let trailing = raw.len() > 0 && raw.last() == '*';
    let text = if trailing {
        raw.drop_last()
    } else {
        raw
    };
    if text.len() == 0 {
        Err(QueryFault::Syntax("empty query string"@))
    } else {
        Ok((SpecValue { text, kind: kind_of(leading, trailing) }, e))
    }
}

/// A quoted value at `p` (where `s[p]` is `"`): everything up to the
/// closing quote, taken literally.
pub open spec fn parse_quoted(s: Seq<char>, p: int) -> Parsed<SpecValue> {
    let e = quote_end(s, p + 1);
    if e >= s.len() {
        Err(QueryFault::Syntax("unterminated quoted string"@))
    } else if e == p + 1 {
        Err(QueryFault::Syntax("empty quoted string"@))
    } else {
        Ok((SpecValue { text: s.subrange(p + 1, e), kind: ValueKind::Quoted }, e + 1))
    }
}

/// The value after `=` or `!=`.
pub open spec fn parse_value_after_op(s: Seq<char>, p: int) -> Parsed<SpecValue> {
    if p >= s.len() {
        Err(QueryFault::Syntax("missing value after operator"@))
    } else if s[p] == '"' {
        parse_quoted(s, p)
    } else {
        parse_query_string(s, p)
    }
}

/// One term at `p` (after spaces and tabs): a quoted value, `attr=value`,
/// `attr!=value`, or a bare query string.
pub open spec fn parse_term(s: Seq<char>, p0: int) -> Parsed<SpecTerm> {
    let p = ws_end(s, p0);
    if p >= s.len() {
        Err(QueryFault::Syntax("unexpected end of query"@))
    } else if s[p] == '"' {
        match parse_quoted(s, p) {
            Ok((v, q)) => Ok((SpecTerm::Value(v), q)),
            Err(f) => Err(f),
        }
    } else {
        let e = id_end(s, p);
        if e > p && e < s.len() && s[e] == '=' {
            match parse_value_after_op(s, e + 1) {
                Ok((v, q)) => Ok((SpecTerm::AttrEq { attr: s.subrange(p, e), value: v }, q)),
                Err(f) => Err(f),
            }
        } else if e > p && e + 1 < s.len() && s[e] == '!' && s[e + 1] == '=' {
            match parse_value_after_op(s, e + 2) {
                Ok((v, q)) => Ok((SpecTerm::AttrNe { attr: s.subrange(p, e), value: v }, q)),
                Err(f) => Err(f),
            }
        } else {
            match parse_query_string(s, p) {
                Ok((v, q)) => Ok((SpecTerm::Value(v), q)),
                Err(f) => Err(f),
            }
        }
    }
}

/// The keyword `kw` (any case) at `p`, followed by a space, a tab or the
/// end: the position after it and the blanks that follow.
pub open spec fn keyword_at(s: Seq<char>, p: int, kw: Seq<char>) -> Option<int> {
    if s.len() - p < kw.len() {
        None
    } else if !eq_ignore_case(s.subrange(p, p + kw.len()), kw) {
        None
    } else {
        let a = p + kw.len();
        if a < s.len() && !is_blank(s[a]) {
            None
        } else {
            Some(ws_end(s, a))
        }
    }
}

/// The number of bytes `c` takes in UTF-8.
pub open spec fn utf8_width(c: char) -> int {
    if (c as u32) < 0x80 {
        1
    } else if (c as u32) < 0x800 {
        2
    } else if (c as u32) < 0x1_0000 {
        3
    } else {
        4
    }
}

/// Whether cutting the UTF-8 bytes of `s` after `n` bytes falls between
/// characters (or past the end).
pub open spec fn cuts_between(s: Seq<char>, n: int) -> bool
    decreases n,
{
    if n <= 0 || s.len() == 0 {
        true
    } else if utf8_width(s[0]) > n {
        false
    } else {
        cuts_between(s.drop_first(), n - utf8_width(s[0]))
    }
}

/// Whether testing for `and` and `or` at the start of `rest` compares
/// whole characters (three and two bytes are cut off).
pub open spec fn keyword_test_is_whole(rest: Seq<char>) -> bool {
    cuts_between(rest, 3) && cuts_between(rest, 2)
}

/// The `and` keyword.
pub open spec fn and_word() -> Seq<char> {
    seq!['a', 'n', 'd']
}

/// The `or` keyword.
pub open spec fn or_word() -> Seq<char> {
    seq!['o', 'r']
}

/// A term parse never stands still.
pub proof fn lemma_term_progress(s: Seq<char>, p: int)
    requires
        0 <= p <= s.len(),
    ensures
        parse_term(s, p) matches Ok((_, q)) ==> p < q <= s.len(),
{
    lemma_ws_end(s, p);
    let w = ws_end(s, p);
    if w < s.len() {
        if s[w] == '"' {
            lemma_quote_end(s, w + 1);
        } else {
            lemma_id_end(s, w);
            let e = id_end(s, w);
            if e + 2 <= s.len() {
                lemma_value_progress(s, e + 2);
            }
            if e + 1 <= s.len() {
                lemma_value_progress(s, e + 1);
            }
            lemma_qs_progress(s, w);
        }
    }
}

proof fn lemma_value_progress(s: Seq<char>, p: int)
    requires
        0 <= p <= s.len(),
    ensures
        parse_value_after_op(s, p) matches Ok((_, q)) ==> p < q <= s.len(),
{
    if p < s.len() {
        if s[p] == '"' {
            lemma_quote_end(s, p + 1);
        } else {
            lemma_qs_progress(s, p);
        }
    }
}

proof fn lemma_qs_progress(s: Seq<char>, p: int)
    requires
        0 <= p <= s.len(),
    ensures
        parse_query_string(s, p) matches Ok((_, q)) ==> p < q <= s.len(),
{
    let leading = 0 <= p < s.len() && s[p] == '*';
    let start = if leading {
        p + 1
    } else {
        p
    };
    lemma_qs_end(s, start);
}

/// Bounds of the scanning functions.
pub proof fn lemma_ws_end(s: Seq<char>, p: int)
    requires
        0 <= p <= s.len(),
    ensures
        p <= ws_end(s, p) <= s.len(),
        forall|i: int| p <= i < ws_end(s, p) ==> is_blank(#[trigger] s[i]),
        ws_end(s, p) < s.len() ==> !is_blank(s[ws_end(s, p)]),
    decreases s.len() - p,
{
    if p < s.len() && is_blank(s[p]) {
        lemma_ws_end(s, p + 1);
    }
}

pub proof fn lemma_id_end(s: Seq<char>, p: int)
    requires
        0 <= p <= s.len(),
    ensures
        p <= id_end(s, p) <= s.len(),
        forall|i: int| p <= i < id_end(s, p) ==> is_id_char(#[trigger] s[i]),
        id_end(s, p) < s.len() ==> !is_id_char(s[id_end(s, p)]),
    decreases s.len() - p,
{
    if p < s.len() && is_id_char(s[p]) {
        lemma_id_end(s, p + 1);
    }
}

pub proof fn lemma_qs_end(s: Seq<char>, p: int)
    requires
        0 <= p <= s.len(),
    ensures
        p <= qs_end(s, p) <= s.len(),
        forall|i: int| p <= i < qs_end(s, p) ==> !ends_query_string(#[trigger] s[i]),
        qs_end(s, p) < s.len() ==> ends_query_string(s[qs_end(s, p)]),
    decreases s.len() - p,
{
    if p < s.len() && !ends_query_string(s[p]) {
        lemma_qs_end(s, p + 1);
    }
}

pub proof fn lemma_quote_end(s: Seq<char>, p: int)
    requires
        0 <= p <= s.len(),
    ensures
        p <= quote_end(s, p) <= s.len(),
        forall|i: int| p <= i < quote_end(s, p) ==> #[trigger] s[i] != '"',
        quote_end(s, p) < s.len() ==> s[quote_end(s, p)] == '"',
    decreases s.len() - p,
{
    if p < s.len() && s[p] != '"' {
        lemma_quote_end(s, p + 1);
    }
}

/// One step of an expression at `p` (a position that is not blank):
/// `and` and a term, `or` and a term, or a juxtaposed term (conjunction),
/// joined to `lhs` on the left.
pub open spec fn rest_step(s: Seq<char>, p: int, lhs: SpecExpr) -> Parsed<SpecExpr> {
    match keyword_at(s, p, and_word()) {
        Some(q) => match parse_term(s, q) {
            Ok((t, r)) => Ok((SpecExpr::And(Box::new(lhs), Box::new(SpecExpr::Term(t))), r)),
            Err(f) => Err(f),
        },
        None => match keyword_at(s, p, or_word()) {
            Some(q) => match parse_term(s, q) {
                Ok((t, r)) => Ok((SpecExpr::Or(Box::new(lhs), Box::new(SpecExpr::Term(t))), r)),
                Err(f) => Err(f),
            },
            None => match parse_term(s, p) {
                Ok((t, r)) => Ok((SpecExpr::And(Box::new(lhs), Box::new(SpecExpr::Term(t))), r)),
                Err(f) => Err(f),
            },
        },
    }
}

/// A step never stands still.
pub proof fn lemma_step_progress(s: Seq<char>, p: int, lhs: SpecExpr)
    requires
        0 <= p <= s.len(),
    ensures
        rest_step(s, p, lhs) matches Ok((_, r)) ==> p < r <= s.len(),
{
    lemma_term_progress(s, p);
    if s.len() - p >= 3 {
        lemma_ws_end(s, p + 3);
        if let Some(q) = keyword_at(s, p, and_word()) {
            lemma_term_progress(s, q);
        }
    }
    if s.len() - p >= 2 {
        lemma_ws_end(s, p + 2);
        if let Some(q) = keyword_at(s, p, or_word()) {
            lemma_term_progress(s, q);
        }
    }
}

/// The rest of an expression after `lhs`, from `p0`: steps folded to the
/// left until only blanks remain.
pub open spec fn parse_rest(s: Seq<char>, p0: int, lhs: SpecExpr) -> Result<SpecExpr, QueryFault>
    decreases s.len() - p0,
{
    if p0 < 0 || p0 > s.len() {
        Ok(lhs)
    } else {
        let p = ws_end(s, p0);
        if p >= s.len() {
            Ok(lhs)
        } else if !keyword_test_is_whole(s.skip(p)) {
            Err(QueryFault::SplitChar)
        } else {
            proof {
                lemma_ws_end(s, p0);
                lemma_step_progress(s, p, lhs);
            }
            match rest_step(s, p, lhs) {
                Ok((e, r)) => parse_rest(s, r, e),
                Err(f) => Err(f),
            }
        }
    }
}

/// A whole (trimmed, non-empty) query text.
pub open spec fn parse_expr(s: Seq<char>) -> Result<SpecExpr, QueryFault> {
    match parse_term(s, 0) {
        Ok((t, p)) => parse_rest(s, p, SpecExpr::Term(t)),
        Err(f) => Err(f),
    }
}


/// An executable parse result matches a spec one: the same value (by its
/// view) and position, or the same syntax message.
pub open spec fn parsed_matches<T: View>(r: Result<(T, usize), String>, s: Parsed<T::V>) -> bool {
    match (r, s) {
        (Ok((v, q)), Ok((sv, sq))) => v@ == sv && q as int == sq,
        (Err(m), Err(QueryFault::Syntax(sm))) => m@ == sm,
        _ => false,
    }
}

/// Executable [`ws_end`].
fn scan_ws(v: &[char], p: usize) -> (r: usize)
    requires
        p <= v@.len(),
    ensures
        r as int == ws_end(v@, p as int),
        p <= r <= v@.len(),
{
    let mut i = p;
    while i < v.len() && (v[i] == ' ' || v[i] == '\t')
        invariant
            p <= i <= v@.len(),
            ws_end(v@, p as int) == ws_end(v@, i as int),
        decreases v@.len() - i,
    {
        i = i + 1;
    }
    i
}

/// Executable [`id_end`].
fn scan_id(v: &[char], p: usize) -> (r: usize)
    requires
        p <= v@.len(),
    ensures
        r as int == id_end(v@, p as int),
        p <= r <= v@.len(),
{
    let mut i = p;
    while i < v.len() && (('a' <= v[i] && v[i] <= 'z') || ('A' <= v[i] && v[i] <= 'Z') || (
    '0' <= v[i] && v[i] <= '9') || v[i] == '_' || v[i] == '-')
        invariant
            p <= i <= v@.len(),
            id_end(v@, p as int) == id_end(v@, i as int),
        decreases v@.len() - i,
    {
        i = i + 1;
    }
    i
}

/// Executable [`qs_end`].
fn scan_query_chars(v: &[char], p: usize) -> (r: usize)
    requires
        p <= v@.len(),
    ensures
        r as int == qs_end(v@, p as int),
        p <= r <= v@.len(),
{
    let mut i = p;
    while i < v.len() && !(v[i] == '"' || v[i] == ' ' || v[i] == '\t')
        invariant
            p <= i <= v@.len(),
            qs_end(v@, p as int) == qs_end(v@, i as int),
        decreases v@.len() - i,
    {
        i = i + 1;
    }
    i
}

/// Executable [`quote_end`].
fn scan_quote(v: &[char], p: usize) -> (r: usize)
    requires
        p <= v@.len(),
    ensures
        r as int == quote_end(v@, p as int),
        p <= r <= v@.len(),
{
    let mut i = p;
    while i < v.len() && v[i] != '"'
        invariant
            p <= i <= v@.len(),
            quote_end(v@, p as int) == quote_end(v@, i as int),
        decreases v@.len() - i,
    {
        i = i + 1;
    }
    i
}

/// Executable [`kind_of`].
fn value_kind(leading: bool, trailing: bool) -> (k: ValueKind)
    ensures
        k == kind_of(leading, trailing),
{
    match (leading, trailing) {
        (false, false) => ValueKind::Exact,
        (false, true) => ValueKind::Prefix,
        (true, false) => ValueKind::Suffix,
        (true, true) => ValueKind::Substring,
    }
}

/// Executable [`parse_query_string`].
fn query_string_at(v: &[char], p: usize) -> (r: Result<(Value, usize), String>)
    requires
        p <= v@.len(),
    ensures
        parsed_matches(r, parse_query_string(v@, p as int)),
{
    let leading = p < v.len() && v[p] == '*';
    let start = if leading {
        p + 1
    } else {
        p
    };
    let e = scan_query_chars(v, start);
    let trailing = e > start && v[e - 1] == '*';
    let stop = if trailing {
        e - 1
    } else {
        e
    };
    proof {
        let raw = v@.subrange(start as int, e as int);
        if raw.len() > 0 {
            assert(raw.last() == v@[e - 1]);
            assert(raw.drop_last() =~= v@.subrange(start as int, e - 1));
        }
    }
    if stop == start {
        return Err("empty query string".to_owned());
    }
    let text = string_of_range(v, start, stop);
    let kind = value_kind(leading, trailing);
    Ok((Value { text, kind }, e))
}

/// Executable [`parse_quoted`].
fn quoted_at(v: &[char], p: usize) -> (r: Result<(Value, usize), String>)
    requires
        p < v@.len(),
        v@[p as int] == '"',
    ensures
        parsed_matches(r, parse_quoted(v@, p as int)),
{
    let _n = v.len();
    let e = scan_quote(v, p + 1);
    if e >= v.len() {
        return Err("unterminated quoted string".to_owned());
    }
    if e == p + 1 {
        return Err("empty quoted string".to_owned());
    }
    let text = string_of_range(v, p + 1, e);
    Ok((Value { text, kind: ValueKind::Quoted }, e + 1))
}

/// Executable [`parse_value_after_op`].
fn value_after_op(v: &[char], p: usize) -> (r: Result<(Value, usize), String>)
    requires
        p <= v@.len(),
    ensures
        parsed_matches(r, parse_value_after_op(v@, p as int)),
{
    if p >= v.len() {
        Err("missing value after operator".to_owned())
    } else if v[p] == '"' {
        quoted_at(v, p)
    } else {
        query_string_at(v, p)
    }
}

/// Executable [`parse_term`].
fn term_at(v: &[char], p0: usize) -> (r: Result<(Term, usize), String>)
    requires
        p0 <= v@.len(),
    ensures
        parsed_matches(r, parse_term(v@, p0 as int)),
{
    let p = scan_ws(v, p0);
    if p >= v.len() {
        return Err("unexpected end of query".to_owned());
    }
    if v[p] == '"' {
        return match quoted_at(v, p) {
            Ok((val, q)) => Ok((Term::Value(val), q)),
            Err(m) => Err(m),
        };
    }
    let e = scan_id(v, p);
    if e > p && e < v.len() && v[e] == '=' {
        match value_after_op(v, e + 1) {
            Ok((val, q)) => Ok((Term::AttrEq { attr: string_of_range(v, p, e), value: val }, q)),
            Err(m) => Err(m),
        }
    } else if e > p && e < v.len() - 1 && v[e] == '!' && v[e + 1] == '=' {
        match value_after_op(v, e + 2) {
            Ok((val, q)) => Ok((Term::AttrNe { attr: string_of_range(v, p, e), value: val }, q)),
            Err(m) => Err(m),
        }
    } else {
        match query_string_at(v, p) {
            Ok((val, q)) => Ok((Term::Value(val), q)),
            Err(m) => Err(m),
        }
    }
}

/// Executable [`utf8_width`].
fn char_width(c: char) -> (w: usize)
    ensures
        w as int == utf8_width(c),
{
    let u = c as u32;
    if u < 0x80 {
        1
    } else if u < 0x800 {
        2
    } else if u < 0x1_0000 {
        3
    } else {
        4
    }
}

/// Executable [`cuts_between`] on `v[p..]`.
fn cuts_between_at(v: &[char], p: usize, n: usize) -> (b: bool)
    requires
        p <= v@.len(),
    ensures
        b == cuts_between(v@.skip(p as int), n as int),
{
    let mut i = p;
    let mut m = n;
    while m > 0 && i < v.len()
        invariant
            p <= i <= v@.len(),
            cuts_between(v@.skip(p as int), n as int) == cuts_between(v@.skip(i as int), m as int),
        decreases m,
    {
        let w = char_width(v[i]);
        proof {
            let t = v@.skip(i as int);
            assert(t[0] == v@[i as int]);
            assert(t.drop_first() =~= v@.skip(i + 1));
        }
        if w > m {
            return false;
        }
        m = m - w;
        i = i + 1;
    }
    proof {
        if m > 0 {
            assert(v@.skip(i as int).len() == 0);
        }
    }
    true
}

/// Executable [`keyword_at`].
fn keyword(v: &[char], p: usize, kw: &[char]) -> (r: Option<usize>)
    requires
        p <= v@.len(),
    ensures
        match r {
            Some(x) => keyword_at(v@, p as int, kw@) == Some(x as int),
            None => keyword_at(v@, p as int, kw@) is None,
        },
{
    if v.len() - p < kw.len() {
        return None;
    }
    if !range_eq_ignore_case(v, p, p + kw.len(), kw) {
        return None;
    }
    let a = p + kw.len();
    if a < v.len() && !(v[a] == ' ' || v[a] == '\t') {
        return None;
    }
    Some(scan_ws(v, a))
}

/// Why an executable parse stopped.
enum Fault {
    Syntax(String),
    SplitChar,
}

/// An executable expression parse matches a spec one.
spec fn expr_matches(r: Result<Expr, Fault>, s: Result<SpecExpr, QueryFault>) -> bool {
    match (r, s) {
        (Ok(e), Ok(se)) => e@ == se,
        (Err(Fault::Syntax(m)), Err(QueryFault::Syntax(sm))) => m@ == sm,
        (Err(Fault::SplitChar), Err(QueryFault::SplitChar)) => true,
        _ => false,
    }
}

/// `lhs and t`.
fn join_and(lhs: Expr, t: Term) -> (e: Expr)
    ensures
        e@ == SpecExpr::And(Box::new(lhs@), Box::new(SpecExpr::Term(t@))),
{
    let leaf = Expr::Term(t);
    assert(leaf@ == SpecExpr::Term(t@));
    Expr::And(Box::new(lhs), Box::new(leaf))
}

/// `lhs or t`.
fn join_or(lhs: Expr, t: Term) -> (e: Expr)
    ensures
        e@ == SpecExpr::Or(Box::new(lhs@), Box::new(SpecExpr::Term(t@))),
{
    let leaf = Expr::Term(t);
    assert(leaf@ == SpecExpr::Term(t@));
    Expr::Or(Box::new(lhs), Box::new(leaf))
}

/// Executable [`rest_step`].
fn step_at(v: &[char], p: usize, lhs: Expr, and_kw: &[char], or_kw: &[char]) -> (r: Result<
    (Expr, usize),
    String,
>)
    requires
        p <= v@.len(),
        and_kw@ == and_word(),
        or_kw@ == or_word(),
    ensures
        parsed_matches(r, rest_step(v@, p as int, lhs@)),
{
    match keyword(v, p, and_kw) {
        Some(q) => {
            proof {
                lemma_ws_end(v@, p + 3);
            }
            match term_at(v, q) {
                Ok((t, r)) => Ok((join_and(lhs, t), r)),
                Err(m) => Err(m),
            }
        },
        None => match keyword(v, p, or_kw) {
            Some(q) => {
                proof {
                    lemma_ws_end(v@, p + 2);
                }
                match term_at(v, q) {
                    Ok((t, r)) => Ok((join_or(lhs, t), r)),
                    Err(m) => Err(m),
                }
            },
            None => match term_at(v, p) {
                Ok((t, r)) => Ok((join_and(lhs, t), r)),
                Err(m) => Err(m),
            },
        },
    }
}

/// Executable [`parse_expr`] on a trimmed, non-empty text.
fn expr_of(v: &[char]) -> (r: Result<Expr, Fault>)
    ensures
        expr_matches(r, parse_expr(v@)),
{
    let and_kw: Vec<char> = vec!['a', 'n', 'd'];
    let or_kw: Vec<char> = vec!['o', 'r'];
    assert(and_kw@ =~= and_word());
    assert(or_kw@ =~= or_word());
    let (first, p0) = match term_at(v, 0) {
        Ok(tq) => tq,
        Err(m) => {
            return Err(Fault::Syntax(m));
        },
    };
    proof {
        lemma_term_progress(v@, 0);
    }
    let mut lhs = Expr::Term(first);
    let mut p = p0;
    let ghost goal = parse_expr(v@);
    loop
        invariant
            p <= v@.len(),
            and_kw@ == and_word(),
            or_kw@ == or_word(),
            goal == parse_expr(v@),
            goal == parse_rest(v@, p as int, lhs@),
        decreases v@.len() - p,
    {
        let w = scan_ws(v, p);
        if w >= v.len() {
            assert(parse_rest(v@, p as int, lhs@) == Ok::<SpecExpr, QueryFault>(lhs@));
            return Ok(lhs);
        }
        if !(cuts_between_at(v, w, 3) && cuts_between_at(v, w, 2)) {
            return Err(Fault::SplitChar);
        }
        proof {
            lemma_step_progress(v@, w as int, lhs@);
        }
        match step_at(v, w, lhs, and_kw.as_slice(), or_kw.as_slice()) {
            Ok((e, r)) => {
                lhs = e;
                p = r;
            },
            Err(m) => {
                return Err(Fault::Syntax(m));
            },
        }
    }
}

/// The text a query is parsed from: the input without surrounding Unicode
/// white space.
pub open spec fn query_text(input: Seq<char>) -> Seq<char> {
    trim(Blanks::Unicode, input)
}

/// Whether parsing `input` would reach the byte-wise keyword test at a
/// position where it cuts a character apart.
pub open spec fn query_splits(input: Seq<char>) -> bool {
    query_text(input).len() > 0 && parse_expr(query_text(input)) matches Err(QueryFault::SplitChar)
}

/// What [`Query::parse`] gives for `input`: the query, or the detail of a
/// `350 Invalid Query Syntax` error.
pub open spec fn query_outcome(input: Seq<char>) -> Result<SpecQuery, Seq<char>> {
    let t = query_text(input);
    if t.len() == 0 {
        Err("empty query"@)
    } else {
        match parse_expr(t) {
            Ok(e) => Ok(SpecQuery { class: None, expr: e, raw: input }),
            Err(QueryFault::Syntax(m)) => Err(m),
            Err(QueryFault::SplitChar) => Err(Seq::empty()),
        }
    }
}

/// The leftmost term of an expression that is not a single term, and the
/// expression without it.
pub open spec fn split_leading(e: SpecExpr) -> Option<(SpecTerm, SpecExpr)>
    decreases e,
{
    match e {
        SpecExpr::Term(_) => None,
        SpecExpr::And(l, r) => match *l {
            SpecExpr::Term(t) => Some((t, *r)),
            _ => match split_leading(*l) {
                Some((t, nl)) => Some((t, SpecExpr::And(Box::new(nl), r))),
                None => None,
            },
        },
        SpecExpr::Or(l, r) => match *l {
            SpecExpr::Term(t) => Some((t, *r)),
            _ => match split_leading(*l) {
                Some((t, nl)) => Some((t, SpecExpr::Or(Box::new(nl), r))),
                None => None,
            },
        },
    }
}

/// The terms of an expression, left to right.
pub open spec fn leaves(e: SpecExpr) -> Seq<SpecTerm>
    decreases e,
{
    match e {
        SpecExpr::Term(t) => seq![t],
        SpecExpr::And(l, r) => leaves(*l) + leaves(*r),
        SpecExpr::Or(l, r) => leaves(*l) + leaves(*r),
    }
}

/// The operators of an expression, left to right (`true` for `and`,
/// `false` for `or`): the operator between each pair of neighbouring
/// terms.
pub open spec fn joins(e: SpecExpr) -> Seq<bool>
    decreases e,
{
    match e {
        SpecExpr::Term(_) => Seq::empty(),
        SpecExpr::And(l, r) => joins(*l) + seq![true] + joins(*r),
        SpecExpr::Or(l, r) => joins(*l) + seq![false] + joins(*r),
    }
}

/// Splitting off the leftmost term keeps the rest of the expression: every
/// expression with an operator splits, the split-off term is the first
/// term, and the rest holds the remaining terms in order joined by the
/// remaining operators in order (only the operator that joined the first
/// term is gone).
pub proof fn lemma_split_leading_keeps_rest(e: SpecExpr)
    ensures
        !(e is Term) ==> split_leading(e) is Some,
        split_leading(e) matches Some((t, r)) ==> leaves(e) == seq![t] + leaves(r) && joins(r)
            == joins(e).drop_first(),
    decreases e,
{
    match e {
        SpecExpr::Term(_) => {},
        SpecExpr::And(l, r) => {
            match *l {
                SpecExpr::Term(t) => {
                    assert(*l == SpecExpr::Term(t));
                    assert(joins(*l) == Seq::<bool>::empty());
                    assert(leaves(*l) == seq![t]);
                    assert(joins(e) =~= seq![true] + joins(*r));
                    assert(leaves(e) =~= seq![t] + leaves(*r));
                },
                _ => {
                    lemma_split_leading_keeps_rest(*l);
                    let (t, nl) = split_leading(*l)->0;
                    assert(joins(*l).len() > 0);
                    assert(joins(SpecExpr::And(Box::new(nl), r)) =~= joins(e).drop_first());
                    assert(leaves(e) =~= seq![t] + leaves(SpecExpr::And(Box::new(nl), r)));
                },
            }
        },
        SpecExpr::Or(l, r) => {
            match *l {
                SpecExpr::Term(t) => {
                    assert(*l == SpecExpr::Term(t));
                    assert(joins(*l) == Seq::<bool>::empty());
                    assert(leaves(*l) == seq![t]);
                    assert(joins(e) =~= seq![false] + joins(*r));
                    assert(leaves(e) =~= seq![t] + leaves(*r));
                },
                _ => {
                    lemma_split_leading_keeps_rest(*l);
                    let (t, nl) = split_leading(*l)->0;
                    assert(joins(*l).len() > 0);
                    assert(joins(SpecExpr::Or(Box::new(nl), r)) =~= joins(e).drop_first());
                    assert(leaves(e) =~= seq![t] + leaves(SpecExpr::Or(Box::new(nl), r)));
                },
            }
        },
    }
}

/// The candidate class of an expression: its leftmost term when that is a
/// bare exact value and more follows, with the rest of the expression.
pub open spec fn class_candidate(e: SpecExpr) -> Option<(Seq<char>, SpecExpr)> {
    match split_leading(e) {
        Some((SpecTerm::Value(v), rest)) => if v.kind == ValueKind::Exact {
            Some((v.text, rest))
        } else {
            None
        },
        _ => None,
    }
}

fn copy_value(v: &Value) -> (r: Value)
    ensures
        r@ == v@,
{
    Value { text: v.text.clone(), kind: v.kind }
}

fn copy_term(t: &Term) -> (r: Term)
    ensures
        r@ == t@,
{
    match t {
        Term::AttrEq { attr, value } => Term::AttrEq { attr: attr.clone(), value: copy_value(value) },
        Term::AttrNe { attr, value } => Term::AttrNe { attr: attr.clone(), value: copy_value(value) },
        Term::Value(v) => Term::Value(copy_value(v)),
    }
}

fn copy_expr(e: &Expr) -> (r: Expr)
    ensures
        r@ == e@,
    decreases e,
{
    match e {
        Expr::Term(t) => Expr::Term(copy_term(t)),
        Expr::And(l, r) => Expr::And(Box::new(copy_expr(&**l)), Box::new(copy_expr(&**r))),
        Expr::Or(l, r) => Expr::Or(Box::new(copy_expr(&**l)), Box::new(copy_expr(&**r))),
    }
}

/// Split off the leftmost term of a left-associative and/or tree: the
/// term and the rest, or `None` for a single term.
pub fn split_leading_term(e: &Expr) -> (r: Option<(Term, Expr)>)
    ensures
        match r {
            Some((t, x)) => split_leading(e@) == Some((t@, x@)),
            None => split_leading(e@) is None,
        },
    decreases e,
{
    match e {
        Expr::Term(_) => None,
        Expr::And(l, r) => match &**l {
            Expr::Term(t) => Some((copy_term(t), copy_expr(&**r))),
            _ => match split_leading_term(&**l) {
                Some((t, nl)) => {
                    let x = Expr::And(Box::new(nl), Box::new(copy_expr(&**r)));
                    Some((t, x))
                },
                None => None,
            },
        },
        Expr::Or(l, r) => match &**l {
            Expr::Term(t) => Some((copy_term(t), copy_expr(&**r))),
            _ => match split_leading_term(&**l) {
                Some((t, nl)) => {
                    let x = Expr::Or(Box::new(nl), Box::new(copy_expr(&**r)));
                    Some((t, x))
                },
                None => None,
            },
        },
    }
}

/// The executable form of [`query_splits`].
fn text_splits(t: &[char]) -> (b: bool)
    ensures
        b == (t@.len() > 0 && parse_expr(t@) matches Err(QueryFault::SplitChar)),
{
    if t.len() == 0 {
        return false;
    }
    match expr_of(t) {
        Err(Fault::SplitChar) => true,
        _ => false,
    }
}

impl Query {
    /// Parse one query line (no terminator).
    ///
    /// Errors are `Error::Protocol` with `350 Invalid Query Syntax`: for an
    /// empty (or all-blank) input, an unterminated or empty quoted string, a
    /// missing value after `=` or `!=`, or an empty query string.
    pub fn parse(input: &str) -> (r: Result<Query, Error>)
        requires
            !query_splits(input@),
        ensures
            match (r, query_outcome(input@)) {
                (Ok(q), Ok(sq)) => q@ == sq,
                (Err(Error::Protocol { code, message }), Err(m)) => code
                    == ResponseCode::invalid_query_syntax() && message@ == m,
                _ => false,
            },
    {
        let raw = input.to_owned();
        let all = chars_of(input);
        let (lo, hi) = trim_bounds(Blanks::Unicode, all.as_slice());
        let t = chars_range(all.as_slice(), lo, hi);
        if t.len() == 0 {
            return Err(Error::protocol(ResponseCode::invalid_query_syntax(), "empty query".to_owned()));
        }
        match expr_of(t.as_slice()) {
            Ok(expr) => Ok(Query { class: None, expr, raw }),
            Err(Fault::Syntax(m)) => Err(Error::protocol(ResponseCode::invalid_query_syntax(), m)),
            Err(Fault::SplitChar) => {
                assert(false);
                Err(Error::protocol(ResponseCode::invalid_query_syntax(), "".to_owned()))
            },
        }
    }

    /// Whether [`Query::parse`] is outside its domain on `input`: the
    /// keyword test would cut a multi-byte character apart there.
    pub fn splits_char(input: &str) -> (b: bool)
        ensures
            b == query_splits(input@),
    {
        let all = chars_of(input);
        let (lo, hi) = trim_bounds(Blanks::Unicode, all.as_slice());
        let t = chars_range(all.as_slice(), lo, hi);
        text_splits(t.as_slice())
    }

    /// If `is_class` accepts the leftmost term of the query (a bare exact
    /// value followed by more), move it into [`Query::class`] and keep the
    /// rest as the expression. A single-term query is returned unchanged.
    pub fn with_class_if<F: Fn(&str) -> bool>(self, is_class: F) -> (r: Query)
        requires
            forall|a: &str| is_class.requires((a,)),
        ensures
            match class_candidate(self@.expr) {
                None => r@ == self@,
                Some((text, rest)) => {
                    ||| r@ == self@ && exists|a: &str| a@ == text && is_class.ensures((a,), false)
                    ||| r@ == (SpecQuery { class: Some(text), expr: rest, raw: self@.raw })
                        && exists|a: &str| a@ == text && is_class.ensures((a,), true)
                },
            },
    {
        let mut q = self;
        if let Expr::Term(Term::Value(v)) = &q.expr {
            if let ValueKind::Exact = v.kind {
                let _ = is_class(v.text.as_str());
            }
            return q;
        }
        match split_leading_term(&q.expr) {
            Some((Term::Value(v), rest)) => {
                if let ValueKind::Exact = v.kind {
                    let a = v.text.as_str();
                    let b = is_class(a);
                    assert(is_class.ensures((a,), b));
                    if b {
                        q.class = Some(v.text);
                        q.expr = rest;
                    }
                }
            },
            _ => {},
        }
        q
    }

    /// The text the query was parsed from, as written.
    pub fn to_string(&self) -> (s: String)
        ensures
            s@ == self.raw@,
    {
        self.raw.clone()
    }
}

/// Every character of `s` is ASCII.
pub open spec fn all_ascii_chars(s: Seq<char>) -> bool {
    forall|i: int| 0 <= i < s.len() ==> (#[trigger] s[i] as u32) < 0x80
}

proof fn lemma_ascii_cuts(s: Seq<char>, n: int)
    requires
        all_ascii_chars(s),
    ensures
        cuts_between(s, n),
    decreases n,
{
    if n > 0 && s.len() > 0 {
        assert(utf8_width(s[0]) == 1);
        assert forall|i: int| 0 <= i < s.drop_first().len() implies (#[trigger] s.drop_first()[i] as u32)
            < 0x80 by {
            assert(s.drop_first()[i] == s[i + 1]);
        }
        lemma_ascii_cuts(s.drop_first(), n - 1);
    }
}

/// Trimming keeps text ASCII.
pub proof fn lemma_trim_ascii(kind: Blanks, s: Seq<char>)
    requires
        all_ascii_chars(s),
    ensures
        all_ascii_chars(trim(kind, s)),
{
    lemma_trim_start_ascii(kind, s);
    lemma_trim_end_ascii(kind, crate::text::trim_start(kind, s));
}

proof fn lemma_trim_start_ascii(kind: Blanks, s: Seq<char>)
    requires
        all_ascii_chars(s),
    ensures
        all_ascii_chars(crate::text::trim_start(kind, s)),
    decreases s.len(),
{
    if s.len() > 0 && crate::text::is_trimmed(kind, s[0]) {
        assert forall|i: int| 0 <= i < s.drop_first().len() implies (#[trigger] s.drop_first()[i] as u32)
            < 0x80 by {
            assert(s.drop_first()[i] == s[i + 1]);
        }
        lemma_trim_start_ascii(kind, s.drop_first());
    }
}

proof fn lemma_trim_end_ascii(kind: Blanks, s: Seq<char>)
    requires
        all_ascii_chars(s),
    ensures
        all_ascii_chars(crate::text::trim_end(kind, s)),
    decreases s.len(),
{
    if s.len() > 0 && crate::text::is_trimmed(kind, s.last()) {
        assert forall|i: int| 0 <= i < s.drop_last().len() implies (#[trigger] s.drop_last()[i] as u32)
            < 0x80 by {
            assert(s.drop_last()[i] == s[i]);
        }
        lemma_trim_end_ascii(kind, s.drop_last());
    }
}

proof fn lemma_term_no_split(s: Seq<char>, p: int)
    ensures
        !(parse_term(s, p) matches Err(QueryFault::SplitChar)),
{
}

proof fn lemma_rest_no_split(s: Seq<char>, p0: int, lhs: SpecExpr)
    requires
        all_ascii_chars(s),
    ensures
        !(parse_rest(s, p0, lhs) matches Err(QueryFault::SplitChar)),
    decreases s.len() - p0,
{
    if 0 <= p0 <= s.len() {
        let p = ws_end(s, p0);
        lemma_ws_end(s, p0);
        if p < s.len() {
            let t = s.skip(p);
            assert forall|i: int| 0 <= i < t.len() implies (#[trigger] t[i] as u32) < 0x80 by {
                assert(t[i] == s[p + i]);
            }
            lemma_ascii_cuts(t, 3);
            lemma_ascii_cuts(t, 2);
            lemma_step_progress(s, p, lhs);
            if let Some(q) = keyword_at(s, p, and_word()) {
                lemma_term_no_split(s, q);
            }
            if let Some(q) = keyword_at(s, p, or_word()) {
                lemma_term_no_split(s, q);
            }
            lemma_term_no_split(s, p);
            if let Ok((e, r)) = rest_step(s, p, lhs) {
                lemma_rest_no_split(s, r, e);
            }
        }
    }
}

/// A character of a plain word: ASCII, and none of the characters the
/// grammar gives a meaning (blanks, `"`, `*`, `=`, `!`).
pub open spec fn plain_word_char(c: char) -> bool {
    (c as u32) < 0x80 && !is_blank(c) && c != '"' && c != '*' && c != '=' && c != '!'
}

/// A keyword is only a keyword when a blank or the end follows it: after a
/// first term `a`, every plain word `t` that is not itself `and` or `or`
/// (in any case) — `oracle.com`, `andy`, `ORx` — is a second term joined to
/// `a` by an implicit `and`.
pub proof fn lemma_juxtaposed_word_is_a_term(t: Seq<char>)
    requires
        t.len() > 0,
        forall|i: int| 0 <= i < t.len() ==> plain_word_char(#[trigger] t[i]),
        !eq_ignore_case(t, and_word()),
        !eq_ignore_case(t, or_word()),
    ensures
        parse_expr(seq!['a', ' '] + t) == Ok::<SpecExpr, QueryFault>(
            SpecExpr::And(
                Box::new(SpecExpr::Term(SpecTerm::Value(SpecValue { text: seq!['a'], kind: ValueKind::Exact }))),
                Box::new(SpecExpr::Term(SpecTerm::Value(SpecValue { text: t, kind: ValueKind::Exact }))),
            ),
        ),
{
    let s = seq!['a', ' '] + t;
    let n = s.len() as int;
    assert forall|i: int| 2 <= i < n implies plain_word_char(#[trigger] s[i]) by {
        assert(s[i] == t[i - 2]);
    }
    // The first term: `a`.
    lemma_ws_end(s, 0);
    lemma_id_end(s, 0);
    lemma_qs_end(s, 0);
    assert(ws_end(s, 0) == 0);
    assert(is_id_char(s[0]));
    assert(!is_id_char(s[1]));
    assert(id_end(s, 0) == 1);
    assert(ends_query_string(s[1]));
    assert(qs_end(s, 0) == 1);
    assert(s.subrange(0, 1) =~= seq!['a']);
    let a = SpecValue { text: seq!['a'], kind: ValueKind::Exact };
    assert(parse_query_string(s, 0) == Ok::<(SpecValue, int), QueryFault>((a, 1)));
    assert(parse_term(s, 0) == Ok::<(SpecTerm, int), QueryFault>((SpecTerm::Value(a), 1)));
    // The blank, then no keyword at position 2.
    lemma_ws_end(s, 1);
    assert(ws_end(s, 1) == 2);
    let rest = s.skip(2);
    assert(rest =~= t);
    assert forall|i: int| 0 <= i < rest.len() implies (#[trigger] rest[i] as u32) < 0x80 by {
        assert(plain_word_char(t[i]));
    }
    lemma_ascii_cuts(rest, 3);
    lemma_ascii_cuts(rest, 2);
    if n - 2 >= 3 {
        if n - 2 == 3 {
            assert(s.subrange(2, 5) =~= t);
        } else {
            assert(plain_word_char(s[5]));
        }
    }
    assert(keyword_at(s, 2, and_word()) is None);
    if n - 2 >= 2 {
        if n - 2 == 2 {
            assert(s.subrange(2, 4) =~= t);
        } else {
            assert(plain_word_char(s[4]));
        }
    }
    assert(keyword_at(s, 2, or_word()) is None);
    // The second term: `t`, up to the end.
    lemma_ws_end(s, 2);
    lemma_id_end(s, 2);
    lemma_qs_end(s, 2);
    assert(ws_end(s, 2) == 2);
    let e = id_end(s, 2);
    if e < n {
        assert(plain_word_char(s[e]));
    }
    assert(!ends_query_string(s[2]));
    assert forall|i: int| 2 <= i < n implies !ends_query_string(#[trigger] s[i]) by {
        assert(plain_word_char(s[i]));
    }
    if qs_end(s, 2) < n {
        assert(ends_query_string(s[qs_end(s, 2)]));
        assert(false);
    }
    assert(qs_end(s, 2) == n);
    assert(s.subrange(2, n) =~= t);
    assert(plain_word_char(t.last()));
    let b = SpecValue { text: t, kind: ValueKind::Exact };
    assert(parse_query_string(s, 2) == Ok::<(SpecValue, int), QueryFault>((b, n)));
    assert(parse_term(s, 2) == Ok::<(SpecTerm, int), QueryFault>((SpecTerm::Value(b), n)));
    let lhs = SpecExpr::Term(SpecTerm::Value(a));
    let joined = SpecExpr::And(Box::new(lhs), Box::new(SpecExpr::Term(SpecTerm::Value(b))));
    assert(rest_step(s, 2, lhs) == Ok::<(SpecExpr, int), QueryFault>((joined, n)));
    lemma_ws_end(s, n);
    assert(parse_rest(s, n, joined) == Ok::<SpecExpr, QueryFault>(joined));
    assert(parse_rest(s, 1, lhs) == Ok::<SpecExpr, QueryFault>(joined));
}

/// A query text made of ASCII characters never reaches the byte-wise
/// keyword test at a place where it would cut a character apart, so
/// [`Query::parse`] accepts it as input.
pub proof fn lemma_ascii_query_never_splits(input: Seq<char>)
    requires
        all_ascii_chars(input),
    ensures
        !query_splits(input),
{
    let t = query_text(input);
    lemma_trim_ascii(Blanks::Unicode, input);
    lemma_term_no_split(t, 0);
    if let Ok((term, p)) = parse_term(t, 0) {
        lemma_rest_no_split(t, p, SpecExpr::Term(term));
    }
}

} // verus!
