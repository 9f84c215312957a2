//! The predicate parser.
//!
//! Grammar, with precedence `Not` over `And` over `Or`:
//!
//! ```text
//! expression := or
//! or         := term (("or" ws | "||" | ",") term)*
//! term       := not_factor (("and" ws | "&&") not_factor)*
//! not_factor := ("not" ws | "!") factor | ("not" | "!") parens | factor
//! factor     := "(" expression ")" | query
//! query      := wildcard | field ":" factor | quoted | word
//! ```
//!
//! `or` and `and` build n-ary nodes directly; a singleton collapses to its
//! child. A word or field name is a nonempty run of bytewise-ASCII
//! alphanumerics and `-_@#.`; a quoted `"…"` pattern may hold any other
//! character but the quote itself. The keywords are case-insensitive; a
//! keyword spelled out in letters must be followed by whitespace, the
//! symbol forms need none.
//!
//! The ghost mirror of the grammar works on a `Seq<char>` and a position
//! and produces a `SpecQuery`; each executable function returns exactly
//! what its mirror says.

use vstd::prelude::*;
use crate::query::Query;

verus! {

broadcast use
    vstd::seq::axiom_seq_index_decreases,
    vstd::std_specs::vec::axiom_vec_index_decreases,
    vstd::std_specs::vec::axiom_vec_decreases_to_view;

/// Why a predicate failed to parse: no parse at all, or trailing input
/// after a complete expression.
#[derive(Debug, PartialEq, Eq)]
pub enum QueryParseError {
    ParseError(String),
    UnrecognizedInput(String),
}

/// The ghost shape of a parsed query, over character sequences.
pub enum SpecQuery {
    Pattern(Seq<char>),
    FieldPattern(Seq<char>, Box<SpecQuery>),
    Wildcard,
    And(Seq<SpecQuery>),
    Or(Seq<SpecQuery>),
    Not(Box<SpecQuery>),
}

impl Query {
    /// The ghost shape of this query.
    pub open spec fn deep(self) -> SpecQuery
        decreases self, 0int,
    {
        match self {
            Query::Pattern(p) => SpecQuery::Pattern(p@),
            Query::FieldPattern(f, sub) => SpecQuery::FieldPattern(f@, Box::new((*sub).deep())),
            Query::Wildcard => SpecQuery::Wildcard,
            Query::And(qs) => SpecQuery::And(spec_deep_seq(qs@, 0)),
            Query::Or(qs) => SpecQuery::Or(spec_deep_seq(qs@, 0)),
            Query::Not(sub) => SpecQuery::Not(Box::new((*sub).deep())),
        }
    }
}

pub open spec fn spec_deep_seq(qs: Seq<Query>, i: int) -> Seq<SpecQuery>
    decreases qs, qs.len() - i,
{
    if i < 0 || i >= qs.len() {
        Seq::empty()
    } else {
        seq![qs[i].deep()] + spec_deep_seq(qs, i + 1)
    }
}

// ------------------------------------------------------------------
// Character classes and fixed tokens.
// ------------------------------------------------------------------

/// Whitespace as the grammar sees it.
pub open spec fn spec_is_space(c: char) -> bool {
    c == ' ' || c == '\t' || c == '\r' || c == '\n'
}

/// A word is a run of the same characters a field name may hold: the
/// lexicon admits one class of name characters, and quoting for the rest.
pub open spec fn spec_is_word_char(c: char) -> bool {
    spec_is_field_char(c)
}

/// A field name is a run of bytewise-ASCII alphanumerics and `-_@#.`;
/// the byte view truncates the character, as the grammar always did.
pub open spec fn spec_is_field_char(c: char) -> bool {
    let b = (c as u32) % 256;
    (48 <= b <= 57) || (65 <= b <= 90) || (97 <= b <= 122) || c == '-' || c == '_' || c == '@'
        || c == '#' || c == '.'
}

/// First index at or after `i` whose character fails `ws`; this is what
/// skipping whitespace returns.
pub open spec fn spec_skip_spaces(s: Seq<char>, i: int) -> int
    decreases s.len() - i,
{
    if i < 0 || i >= s.len() {
        s.len() as int
    } else if spec_is_space(s[i]) {
        spec_skip_spaces(s, i + 1)
    } else {
        i
    }
}

/// End of the run of word characters starting at `i`.
pub open spec fn spec_word_end(s: Seq<char>, i: int) -> int
    decreases s.len() - i,
{
    if i < 0 || i >= s.len() {
        s.len() as int
    } else if spec_is_word_char(s[i]) {
        spec_word_end(s, i + 1)
    } else {
        i
    }
}

/// End of the run of field-name characters starting at `i`.
pub open spec fn spec_field_end(s: Seq<char>, i: int) -> int
    decreases s.len() - i,
{
    if i < 0 || i >= s.len() {
        s.len() as int
    } else if spec_is_field_char(s[i]) {
        spec_field_end(s, i + 1)
    } else {
        i
    }
}

/// End of the run of non-quote characters starting at `i`.
pub open spec fn spec_unquoted_end(s: Seq<char>, i: int) -> int
    decreases s.len() - i,
{
    if i < 0 || i >= s.len() {
        s.len() as int
    } else if s[i] != '"' {
        spec_unquoted_end(s, i + 1)
    } else {
        i
    }
}

/// Case-insensitive keyword at `i`; the position after it on success.
pub open spec fn spec_keyword(s: Seq<char>, i: int, kw: Seq<char>) -> Option<int> {
    if 0 <= i && i + kw.len() <= s.len() && (forall|k: int|
        0 <= k < kw.len() ==> spec_eq_nocase(s[i + k], kw[k])) {
        Option::Some(i + kw.len() as int)
    } else {
        Option::None
    }
}

/// ASCII-case-insensitive character comparison against a lower-case letter.
pub open spec fn spec_eq_nocase(c: char, lower: char) -> bool {
    c == lower || (c as u32) + 32 == (lower as u32)
}

/// Literal token at `i`.
pub open spec fn spec_token(s: Seq<char>, i: int, tok: Seq<char>) -> Option<int> {
    if 0 <= i && i + tok.len() <= s.len() && (forall|k: int| 0 <= k < tok.len() ==> s[i + k] == tok[k]) {
        Option::Some(i + tok.len() as int)
    } else {
        Option::None
    }
}

/// The `or` separator: `or` followed by whitespace, or `||` or `,`
/// followed by optional whitespace.
pub open spec fn spec_or_sep(s: Seq<char>, i: int) -> Option<int> {
    match spec_keyword(s, i, seq!['o', 'r']) {
        Option::Some(j) => if j < s.len() && spec_is_space(s[j]) {
            Option::Some(spec_skip_spaces(s, j))
        } else {
            spec_or_sep_symbol(s, i)
        },
        Option::None => spec_or_sep_symbol(s, i),
    }
}

pub open spec fn spec_or_sep_symbol(s: Seq<char>, i: int) -> Option<int> {
    match spec_token(s, i, seq!['|', '|']) {
        Option::Some(j) => Option::Some(spec_skip_spaces(s, j)),
        Option::None => match spec_token(s, i, seq![',']) {
            Option::Some(j) => Option::Some(spec_skip_spaces(s, j)),
            Option::None => Option::None,
        },
    }
}

/// The `and` separator: `and` followed by whitespace, or `&&` followed by
/// optional whitespace.
pub open spec fn spec_and_sep(s: Seq<char>, i: int) -> Option<int> {
    match spec_keyword(s, i, seq!['a', 'n', 'd']) {
        Option::Some(j) => if j < s.len() && spec_is_space(s[j]) {
            Option::Some(spec_skip_spaces(s, j))
        } else {
            spec_and_sep_symbol(s, i)
        },
        Option::None => spec_and_sep_symbol(s, i),
    }
}

pub open spec fn spec_and_sep_symbol(s: Seq<char>, i: int) -> Option<int> {
    match spec_token(s, i, seq!['&', '&']) {
        Option::Some(j) => Option::Some(spec_skip_spaces(s, j)),
        Option::None => Option::None,
    }
}

// ------------------------------------------------------------------
// The grammar's ghost mirror.
// ------------------------------------------------------------------

/// A whole expression.
pub open spec fn spec_expression(s: Seq<char>, i: int) -> Option<(SpecQuery, int)>
    decreases s.len() - i, 10int,
{
    spec_or(s, i)
}

/// One or more terms separated by `or` separators; a singleton collapses.
pub open spec fn spec_or(s: Seq<char>, i: int) -> Option<(SpecQuery, int)>
    decreases s.len() - i, 9int,
{
    match spec_term(s, i) {
        Option::None => Option::None,
        Option::Some((q, j)) => if i <= j && j <= s.len() {
            let rest = spec_or_rest(s, j);
            if rest.0.len() == 0 {
                Option::Some((q, rest.1))
            } else {
                Option::Some((SpecQuery::Or(seq![q] + rest.0), rest.1))
            }
        } else {
            Option::Some((q, j))
        },
    }
}

/// Further `or` clauses; stops before a separator that no term follows.
pub open spec fn spec_or_rest(s: Seq<char>, i: int) -> (Seq<SpecQuery>, int)
    decreases s.len() - i, 8int,
{
    if i < 0 {
        (Seq::empty(), i)
    } else {
        match spec_or_sep(s, i) {
            Option::None => (Seq::empty(), i),
            Option::Some(j) => if i < j && j <= s.len() {
                match spec_term(s, j) {
                    Option::None => (Seq::empty(), i),
                    Option::Some((q, j2)) => if j < j2 && j2 <= s.len() {
                        let rest = spec_or_rest(s, j2);
                        (seq![q] + rest.0, rest.1)
                    } else {
                        (Seq::empty(), i)
                    },
                }
            } else {
                (Seq::empty(), i)
            },
        }
    }
}

/// One or more factors separated by `and` separators; a singleton
/// collapses.
pub open spec fn spec_term(s: Seq<char>, i: int) -> Option<(SpecQuery, int)>
    decreases s.len() - i, 7int,
{
    match spec_not_factor(s, i) {
        Option::None => Option::None,
        Option::Some((q, j)) => if i <= j && j <= s.len() {
            let rest = spec_and_rest(s, j);
            if rest.0.len() == 0 {
                Option::Some((q, rest.1))
            } else {
                Option::Some((SpecQuery::And(seq![q] + rest.0), rest.1))
            }
        } else {
            Option::Some((q, j))
        },
    }
}

/// Further `and` clauses.
pub open spec fn spec_and_rest(s: Seq<char>, i: int) -> (Seq<SpecQuery>, int)
    decreases s.len() - i, 6int,
{
    if i < 0 {
        (Seq::empty(), i)
    } else {
        match spec_and_sep(s, i) {
            Option::None => (Seq::empty(), i),
            Option::Some(j) => if i < j && j <= s.len() {
                match spec_not_factor(s, j) {
                    Option::None => (Seq::empty(), i),
                    Option::Some((q, j2)) => if j < j2 && j2 <= s.len() {
                        let rest = spec_and_rest(s, j2);
                        (seq![q] + rest.0, rest.1)
                    } else {
                        (Seq::empty(), i)
                    },
                }
            } else {
                (Seq::empty(), i)
            },
        }
    }
}

/// A factor, possibly negated by a spelled-out or symbolic `not`.
pub open spec fn spec_not_factor(s: Seq<char>, i: int) -> Option<(SpecQuery, int)>
    decreases s.len() - i, 5int,
{
    let worded = spec_not_factor_worded(s, i);
    if worded is Some {
        worded
    } else {
        let symbol = spec_not_factor_symbol(s, i);
        if symbol is Some {
            symbol
        } else {
            let tight = spec_not_factor_tight(s, i);
            if tight is Some {
                tight
            } else {
                spec_factor(s, i)
            }
        }
    }
}

/// `not` followed by whitespace and a factor.
pub open spec fn spec_not_factor_worded(s: Seq<char>, i: int) -> Option<(SpecQuery, int)>
    decreases s.len() - i, 4int,
{
    match spec_keyword(s, i, seq!['n', 'o', 't']) {
        Option::None => Option::None,
        Option::Some(j) => if j < s.len() && spec_is_space(s[j]) {
            let j2 = spec_skip_spaces(s, j);
            if i < j2 && j2 <= s.len() {
                match spec_factor(s, j2) {
                    Option::None => Option::None,
                    Option::Some((q, j3)) => Option::Some((SpecQuery::Not(Box::new(q)), j3)),
                }
            } else {
                Option::None
            }
        } else {
            Option::None
        },
    }
}

/// `!` followed by optional whitespace and a factor.
pub open spec fn spec_not_factor_symbol(s: Seq<char>, i: int) -> Option<(SpecQuery, int)>
    decreases s.len() - i, 4int,
{
    match spec_token(s, i, seq!['!']) {
        Option::None => Option::None,
        Option::Some(j) => {
            let j2 = spec_skip_spaces(s, j);
            if i < j2 && j2 <= s.len() {
                match spec_factor(s, j2) {
                    Option::None => Option::None,
                    Option::Some((q, j3)) => Option::Some((SpecQuery::Not(Box::new(q)), j3)),
                }
            } else {
                Option::None
            }
        },
    }
}

/// `not` or `!` directly against a parenthesised expression.
pub open spec fn spec_not_factor_tight(s: Seq<char>, i: int) -> Option<(SpecQuery, int)>
    decreases s.len() - i, 4int,
{
    let after = spec_keyword(s, i, seq!['n', 'o', 't']);
    let j = if after is Some {
        after->Some_0
    } else {
        match spec_token(s, i, seq!['!']) {
            Option::Some(j) => j,
            Option::None => -1,
        }
    };
    if j <= i {
        Option::None
    } else {
        match spec_parens(s, j) {
            Option::None => Option::None,
            Option::Some((q, j2)) => Option::Some((SpecQuery::Not(Box::new(q)), j2)),
        }
    }
}

/// A parenthesised expression or a simple query.
pub open spec fn spec_factor(s: Seq<char>, i: int) -> Option<(SpecQuery, int)>
    decreases s.len() - i, 3int,
{
    let p = spec_parens(s, i);
    if p is Some {
        p
    } else {
        spec_query(s, i)
    }
}

/// `(` expression `)`, each closing token followed by optional whitespace.
pub open spec fn spec_parens(s: Seq<char>, i: int) -> Option<(SpecQuery, int)>
    decreases s.len() - i, 2int,
{
    if 0 <= i < s.len() && s[i] == '(' {
        let j = spec_skip_spaces(s, i + 1);
        if i < j && j <= s.len() {
            match spec_expression(s, j) {
                Option::None => Option::None,
                Option::Some((q, j2)) => if j2 < s.len() && s[j2] == ')' {
                    Option::Some((q, spec_skip_spaces(s, j2 + 1)))
                } else {
                    Option::None
                },
            }
        } else {
            Option::None
        }
    } else {
        Option::None
    }
}

/// A simple query: wildcard, field pattern, quoted pattern or word.
pub open spec fn spec_query(s: Seq<char>, i: int) -> Option<(SpecQuery, int)>
    decreases s.len() - i, 2int,
{
    if 0 <= i < s.len() && s[i] == '*' {
        Option::Some((SpecQuery::Wildcard, spec_skip_spaces(s, i + 1)))
    } else {
        let f = spec_field_text(s, i);
        if f is Some {
            f
        } else {
            let q = spec_quoted(s, i);
            if q is Some {
                q
            } else {
                spec_word(s, i)
            }
        }
    }
}

/// A field name, a colon, and a factor.
pub open spec fn spec_field_text(s: Seq<char>, i: int) -> Option<(SpecQuery, int)>
    decreases s.len() - i, 1int,
{
    if i < 0 {
        Option::None
    } else {
        let e = spec_field_end(s, i);
        if e == i {
            Option::None
        } else if e < s.len() && s[e] == ':' && i < e + 1 {
            match spec_factor(s, e + 1) {
                Option::None => Option::None,
                Option::Some((q, j)) => Option::Some(
                    (SpecQuery::FieldPattern(s.subrange(i, e), Box::new(q)), j),
                ),
            }
        } else {
            Option::None
        }
    }
}

/// A quoted pattern: `"` then at least one non-quote character then `"`,
/// with optional trailing whitespace.
pub open spec fn spec_quoted(s: Seq<char>, i: int) -> Option<(SpecQuery, int)> {
    if 0 <= i < s.len() && s[i] == '"' {
        let e = spec_unquoted_end(s, i + 1);
        if e > i + 1 && e < s.len() && s[e] == '"' {
            Option::Some((SpecQuery::Pattern(s.subrange(i + 1, e)), spec_skip_spaces(s, e + 1)))
        } else {
            Option::None
        }
    } else {
        Option::None
    }
}

/// A word: at least one word character, with optional trailing whitespace.
pub open spec fn spec_word(s: Seq<char>, i: int) -> Option<(SpecQuery, int)> {
    if i < 0 {
        Option::None
    } else {
        let e = spec_word_end(s, i);
        if e == i {
            Option::None
        } else {
            Option::Some((SpecQuery::Pattern(s.subrange(i, e)), spec_skip_spaces(s, e)))
        }
    }
}

} // verus!

verus! {

// ------------------------------------------------------------------
// The executable parser. Every function returns exactly what its ghost
// mirror says of the same input and position.
// ------------------------------------------------------------------

/// The characters of a string slice, in order.
fn str_chars(s: &str) -> (r: Vec<char>)
    ensures
        r@ == s@,
{
    let n = s.unicode_len();
    let mut r: Vec<char> = Vec::new();
    let mut i: usize = 0;
    while i < n
        invariant
            i <= n,
            n == s@.len(),
            r@ == s@.subrange(0, i as int),
        decreases n - i,
    {
        r.push(s.get_char(i));
        proof {
            assert(r@ =~= s@.subrange(0, i as int + 1));
        }
        i = i + 1;
    }
    proof {
        assert(r@ =~= s@);
    }
    r
}

/// Relies on std's `FromIterator` for `String`: collecting characters
/// yields the string of exactly those characters in order.
#[verifier::external_body]
pub(crate) fn chars_to_string(v: &Vec<char>) -> (s: String)
    ensures
        s@ == v@,
{
    v.iter().collect()
}

/// The substring `from..to` as an owned string.
fn chars_substring(chars: &Vec<char>, from: usize, to: usize) -> (s: String)
    requires
        from <= to <= chars@.len(),
    ensures
        s@ == chars@.subrange(from as int, to as int),
{
    let mut v: Vec<char> = Vec::new();
    let mut i: usize = from;
    while i < to
        invariant
            from <= i <= to <= chars@.len(),
            v@ == chars@.subrange(from as int, i as int),
        decreases to - i,
    {
        v.push(chars[i]);
        proof {
            assert(v@ =~= chars@.subrange(from as int, i as int + 1));
        }
        i = i + 1;
    }
    chars_to_string(&v)
}

fn skip_spaces(chars: &Vec<char>, i: usize) -> (r: usize)
    requires
        i <= chars@.len(),
    ensures
        r == spec_skip_spaces(chars@, i as int),
        i <= r <= chars@.len(),
    decreases chars@.len() - i,
{
    if i < chars.len() && (chars[i] == ' ' || chars[i] == '\t' || chars[i] == '\r' || chars[i]
        == '\n') {
        skip_spaces(chars, i + 1)
    } else {
        i
    }
}

pub(crate) fn is_word_char(c: char) -> (r: bool)
    ensures
        r == spec_is_word_char(c),
{
    is_field_char(c)
}

pub(crate) fn is_field_char(c: char) -> (r: bool)
    ensures
        r == spec_is_field_char(c),
{
    let b: u32 = (c as u32) % 256;
    (48 <= b && b <= 57) || (65 <= b && b <= 90) || (97 <= b && b <= 122) || c == '-' || c == '_'
        || c == '@' || c == '#' || c == '.'
}

fn word_end(chars: &Vec<char>, i: usize) -> (r: usize)
    requires
        i <= chars@.len(),
    ensures
        r == spec_word_end(chars@, i as int),
        i <= r <= chars@.len(),
    decreases chars@.len() - i,
{
    if i < chars.len() && is_word_char(chars[i]) {
        word_end(chars, i + 1)
    } else {
        i
    }
}

fn field_end(chars: &Vec<char>, i: usize) -> (r: usize)
    requires
        i <= chars@.len(),
    ensures
        r == spec_field_end(chars@, i as int),
        i <= r <= chars@.len(),
    decreases chars@.len() - i,
{
    if i < chars.len() && is_field_char(chars[i]) {
        field_end(chars, i + 1)
    } else {
        i
    }
}

fn unquoted_end(chars: &Vec<char>, i: usize) -> (r: usize)
    requires
        i <= chars@.len(),
    ensures
        r == spec_unquoted_end(chars@, i as int),
        i <= r <= chars@.len(),
    decreases chars@.len() - i,
{
    if i < chars.len() && chars[i] != '"' {
        unquoted_end(chars, i + 1)
    } else {
        i
    }
}

fn eq_nocase(c: char, lower: char) -> (r: bool)
    ensures
        r == spec_eq_nocase(c, lower),
{
    c == lower || (c as u32) + 32 == (lower as u32)
}

/// The keyword `or`, case-insensitively.
fn kw_or(chars: &Vec<char>, i: usize) -> (r: Option<usize>)
    requires
        i <= chars@.len(),
    ensures
        match r {
            Option::Some(j) => spec_keyword(chars@, i as int, seq!['o', 'r']) == Option::Some(
                j as int,
            ) && i <= j <= chars@.len(),
            Option::None => spec_keyword(chars@, i as int, seq!['o', 'r']) is None,
        },
{
    let ghost kw: Seq<char> = seq!['o', 'r'];
    if chars.len() - i >= 2 && eq_nocase(chars[i], 'o') && eq_nocase(chars[i + 1], 'r') {
        proof {
            assert forall|k: int| 0 <= k < kw.len() implies spec_eq_nocase(
                chars@[i + k],
                kw[k],
            ) by {
                if k == 0 {
                } else {
                    assert(k == 1);
                }
            }
        }
        Some(i + 2)
    } else {
        proof {
            if i + 2 <= chars@.len() {
                assert(kw[0] == 'o' && kw[1] == 'r');
            }
        }
        None
    }
}

/// The keyword `and`, case-insensitively.
fn kw_and(chars: &Vec<char>, i: usize) -> (r: Option<usize>)
    requires
        i <= chars@.len(),
    ensures
        match r {
            Option::Some(j) => spec_keyword(chars@, i as int, seq!['a', 'n', 'd'])
                == Option::Some(j as int) && i <= j <= chars@.len(),
            Option::None => spec_keyword(chars@, i as int, seq!['a', 'n', 'd']) is None,
        },
{
    let ghost kw: Seq<char> = seq!['a', 'n', 'd'];
    if chars.len() - i >= 3 && eq_nocase(chars[i], 'a') && eq_nocase(chars[i + 1], 'n')
        && eq_nocase(chars[i + 2], 'd') {
        proof {
            assert forall|k: int| 0 <= k < kw.len() implies spec_eq_nocase(
                chars@[i + k],
                kw[k],
            ) by {
                if k == 0 {
                } else if k == 1 {
                } else {
                    assert(k == 2);
                }
            }
        }
        Some(i + 3)
    } else {
        proof {
            if i + 3 <= chars@.len() {
                assert(kw[0] == 'a' && kw[1] == 'n' && kw[2] == 'd');
            }
        }
        None
    }
}

/// The keyword `not`, case-insensitively.
fn kw_not(chars: &Vec<char>, i: usize) -> (r: Option<usize>)
    requires
        i <= chars@.len(),
    ensures
        match r {
            Option::Some(j) => spec_keyword(chars@, i as int, seq!['n', 'o', 't'])
                == Option::Some(j as int) && i <= j <= chars@.len(),
            Option::None => spec_keyword(chars@, i as int, seq!['n', 'o', 't']) is None,
        },
{
    let ghost kw: Seq<char> = seq!['n', 'o', 't'];
    if chars.len() - i >= 3 && eq_nocase(chars[i], 'n') && eq_nocase(chars[i + 1], 'o')
        && eq_nocase(chars[i + 2], 't') {
        proof {
            assert forall|k: int| 0 <= k < kw.len() implies spec_eq_nocase(
                chars@[i + k],
                kw[k],
            ) by {
                if k == 0 {
                } else if k == 1 {
                } else {
                    assert(k == 2);
                }
            }
        }
        Some(i + 3)
    } else {
        proof {
            if i + 3 <= chars@.len() {
                assert(kw[0] == 'n' && kw[1] == 'o' && kw[2] == 't');
            }
        }
        None
    }
}

fn or_sep(chars: &Vec<char>, i: usize) -> (r: Option<usize>)
    requires
        i <= chars@.len(),
    ensures
        match r {
            Option::Some(j) => spec_or_sep(chars@, i as int) == Option::Some(j as int) && j
                <= chars@.len(),
            Option::None => spec_or_sep(chars@, i as int) is None,
        },
{
    match kw_or(chars, i) {
        Some(j) => {
            if j < chars.len() && (chars[j] == ' ' || chars[j] == '\t' || chars[j] == '\r'
                || chars[j] == '\n') {
                return Some(skip_spaces(chars, j));
            }
            or_sep_symbol(chars, i)
        },
        None => or_sep_symbol(chars, i),
    }
}

fn or_sep_symbol(chars: &Vec<char>, i: usize) -> (r: Option<usize>)
    requires
        i <= chars@.len(),
    ensures
        match r {
            Option::Some(j) => spec_or_sep_symbol(chars@, i as int) == Option::Some(j as int) && j
                <= chars@.len(),
            Option::None => spec_or_sep_symbol(chars@, i as int) is None,
        },
{
    let ghost pipes: Seq<char> = seq!['|', '|'];
    let ghost comma: Seq<char> = seq![','];
    proof {
        assert(pipes[0] == '|' && pipes[1] == '|');
        assert(comma[0] == ',');
    }
    if chars.len() - i >= 2 && chars[i] == '|' && chars[i + 1] == '|' {
        proof {
            assert forall|k: int| 0 <= k < pipes.len() implies chars@[i + k] == pipes[k] by {
                if k == 0 {
                } else {
                    assert(k == 1);
                }
            }
        }
        Some(skip_spaces(chars, i + 2))
    } else if chars.len() - i >= 1 && chars[i] == ',' {
        Some(skip_spaces(chars, i + 1))
    } else {
        None
    }
}

fn and_sep(chars: &Vec<char>, i: usize) -> (r: Option<usize>)
    requires
        i <= chars@.len(),
    ensures
        match r {
            Option::Some(j) => spec_and_sep(chars@, i as int) == Option::Some(j as int) && j
                <= chars@.len(),
            Option::None => spec_and_sep(chars@, i as int) is None,
        },
{
    let ghost amps: Seq<char> = seq!['&', '&'];
    proof {
        assert(amps[0] == '&' && amps[1] == '&');
    }
    match kw_and(chars, i) {
        Some(j) => {
            if j < chars.len() && (chars[j] == ' ' || chars[j] == '\t' || chars[j] == '\r'
                || chars[j] == '\n') {
                return Some(skip_spaces(chars, j));
            }
        },
        None => {},
    }
    if chars.len() - i >= 2 && chars[i] == '&' && chars[i + 1] == '&' {
        proof {
            assert forall|k: int| 0 <= k < amps.len() implies chars@[i + k] == amps[k] by {
                if k == 0 {
                } else {
                    assert(k == 1);
                }
            }
        }
        Some(skip_spaces(chars, i + 2))
    } else {
        None
    }
}

} // verus!

verus! {

proof fn lemma_deep_seq_shift(q: Query, rest: Seq<Query>, i: int)
    requires
        0 <= i <= rest.len(),
    ensures
        spec_deep_seq(seq![q] + rest, i + 1) == spec_deep_seq(rest, i),
    decreases rest.len() - i,
{
    let qs = seq![q] + rest;
    if i >= rest.len() {
        assert(spec_deep_seq(qs, i + 1) =~= spec_deep_seq(rest, i));
    } else {
        lemma_deep_seq_shift(q, rest, i + 1);
        assert(qs[i + 1] == rest[i]);
    }
}

/// Prepending an element commutes with taking ghost shapes.
proof fn lemma_deep_seq_cons(q: Query, rest: Seq<Query>)
    ensures
        spec_deep_seq(seq![q] + rest, 0) == seq![q.deep()] + spec_deep_seq(rest, 0),
{
    let qs = seq![q] + rest;
    assert(qs[0] == q);
    lemma_deep_seq_shift(q, rest, 0);
    assert(spec_deep_seq(qs, 0) =~= seq![q.deep()] + spec_deep_seq(rest, 0));
}

fn expression(chars: &Vec<char>, i: usize) -> (r: Option<(Query, usize)>)
    requires
        i <= chars@.len(),
    ensures
        match r {
            Option::Some(p) => spec_expression(chars@, i as int) == Option::Some(
                (p.0.deep(), p.1 as int),
            ) && p.1 <= chars@.len(),
            Option::None => spec_expression(chars@, i as int) is None,
        },
    decreases chars@.len() - i, 10int,
{
    parse_or(chars, i)
}

fn parse_or(chars: &Vec<char>, i: usize) -> (r: Option<(Query, usize)>)
    requires
        i <= chars@.len(),
    ensures
        match r {
            Option::Some(p) => spec_or(chars@, i as int) == Option::Some(
                (p.0.deep(), p.1 as int),
            ) && p.1 <= chars@.len(),
            Option::None => spec_or(chars@, i as int) is None,
        },
    decreases chars@.len() - i, 9int,
{
    match parse_term(chars, i) {
        None => None,
        Some((q, j)) => if i <= j {
            let (mut others, pos) = or_rest(chars, j);
            if others.len() == 0 {
                Some((q, pos))
            } else {
                proof {
                    lemma_deep_seq_cons(q, others@);
                }
                let mut v: Vec<Query> = Vec::new();
                v.push(q);
                v.append(&mut others);
                Some((Query::Or(v), pos))
            }
        } else {
            Some((q, j))
        },
    }
}

fn or_rest(chars: &Vec<char>, i: usize) -> (r: (Vec<Query>, usize))
    requires
        i <= chars@.len(),
    ensures
        spec_deep_seq(r.0@, 0) == spec_or_rest(chars@, i as int).0,
        r.1 as int == spec_or_rest(chars@, i as int).1,
        r.1 <= chars@.len(),
    decreases chars@.len() - i, 8int,
{
    proof {
        assert(spec_deep_seq(Seq::<Query>::empty(), 0) =~= Seq::<SpecQuery>::empty());
    }
    match or_sep(chars, i) {
        None => (Vec::new(), i),
        Some(j) => if i < j {
            match parse_term(chars, j) {
                None => (Vec::new(), i),
                Some((q, j2)) => if j < j2 {
                    let (mut others, pos) = or_rest(chars, j2);
                    proof {
                        lemma_deep_seq_cons(q, others@);
                    }
                    let mut v: Vec<Query> = Vec::new();
                    v.push(q);
                    v.append(&mut others);
                    (v, pos)
                } else {
                    (Vec::new(), i)
                },
            }
        } else {
            (Vec::new(), i)
        },
    }
}

fn parse_term(chars: &Vec<char>, i: usize) -> (r: Option<(Query, usize)>)
    requires
        i <= chars@.len(),
    ensures
        match r {
            Option::Some(p) => spec_term(chars@, i as int) == Option::Some(
                (p.0.deep(), p.1 as int),
            ) && p.1 <= chars@.len(),
            Option::None => spec_term(chars@, i as int) is None,
        },
    decreases chars@.len() - i, 7int,
{
    match not_factor(chars, i) {
        None => None,
        Some((q, j)) => if i <= j {
            let (mut others, pos) = and_rest(chars, j);
            if others.len() == 0 {
                Some((q, pos))
            } else {
                proof {
                    lemma_deep_seq_cons(q, others@);
                }
                let mut v: Vec<Query> = Vec::new();
                v.push(q);
                v.append(&mut others);
                Some((Query::And(v), pos))
            }
        } else {
            Some((q, j))
        },
    }
}

fn and_rest(chars: &Vec<char>, i: usize) -> (r: (Vec<Query>, usize))
    requires
        i <= chars@.len(),
    ensures
        spec_deep_seq(r.0@, 0) == spec_and_rest(chars@, i as int).0,
        r.1 as int == spec_and_rest(chars@, i as int).1,
        r.1 <= chars@.len(),
    decreases chars@.len() - i, 6int,
{
    proof {
        assert(spec_deep_seq(Seq::<Query>::empty(), 0) =~= Seq::<SpecQuery>::empty());
    }
    match and_sep(chars, i) {
        None => (Vec::new(), i),
        Some(j) => if i < j {
            match not_factor(chars, j) {
                None => (Vec::new(), i),
                Some((q, j2)) => if j < j2 {
                    let (mut others, pos) = and_rest(chars, j2);
                    proof {
                        lemma_deep_seq_cons(q, others@);
                    }
                    let mut v: Vec<Query> = Vec::new();
                    v.push(q);
                    v.append(&mut others);
                    (v, pos)
                } else {
                    (Vec::new(), i)
                },
            }
        } else {
            (Vec::new(), i)
        },
    }
}

fn not_factor(chars: &Vec<char>, i: usize) -> (r: Option<(Query, usize)>)
    requires
        i <= chars@.len(),
    ensures
        match r {
            Option::Some(p) => spec_not_factor(chars@, i as int) == Option::Some(
                (p.0.deep(), p.1 as int),
            ) && p.1 <= chars@.len(),
            Option::None => spec_not_factor(chars@, i as int) is None,
        },
    decreases chars@.len() - i, 5int,
{
    match not_factor_worded(chars, i) {
        Some(p) => Some(p),
        None => match not_factor_symbol(chars, i) {
            Some(p) => Some(p),
            None => match not_factor_tight(chars, i) {
                Some(p) => Some(p),
                None => factor(chars, i),
            },
        },
    }
}

fn not_factor_worded(chars: &Vec<char>, i: usize) -> (r: Option<(Query, usize)>)
    requires
        i <= chars@.len(),
    ensures
        match r {
            Option::Some(p) => spec_not_factor_worded(chars@, i as int) == Option::Some(
                (p.0.deep(), p.1 as int),
            ) && p.1 <= chars@.len(),
            Option::None => spec_not_factor_worded(chars@, i as int) is None,
        },
    decreases chars@.len() - i, 4int,
{
    match kw_not(chars, i) {
        None => None,
        Some(j) => if j < chars.len() && (chars[j] == ' ' || chars[j] == '\t' || chars[j] == '\r'
            || chars[j] == '\n') {
            let j2 = skip_spaces(chars, j);
            if i < j2 {
                match factor(chars, j2) {
                    None => None,
                    Some((q, j3)) => Some((Query::Not(Box::new(q)), j3)),
                }
            } else {
                None
            }
        } else {
            None
        },
    }
}

fn not_factor_symbol(chars: &Vec<char>, i: usize) -> (r: Option<(Query, usize)>)
    requires
        i <= chars@.len(),
    ensures
        match r {
            Option::Some(p) => spec_not_factor_symbol(chars@, i as int) == Option::Some(
                (p.0.deep(), p.1 as int),
            ) && p.1 <= chars@.len(),
            Option::None => spec_not_factor_symbol(chars@, i as int) is None,
        },
    decreases chars@.len() - i, 4int,
{
    let ghost bang: Seq<char> = seq!['!'];
    proof {
        assert(bang[0] == '!');
    }
    if i < chars.len() && chars[i] == '!' {
        let j = i + 1;
        let j2 = skip_spaces(chars, j);
        if i < j2 {
            match factor(chars, j2) {
                None => None,
                Some((q, j3)) => Some((Query::Not(Box::new(q)), j3)),
            }
        } else {
            None
        }
    } else {
        None
    }
}

fn not_factor_tight(chars: &Vec<char>, i: usize) -> (r: Option<(Query, usize)>)
    requires
        i <= chars@.len(),
    ensures
        match r {
            Option::Some(p) => spec_not_factor_tight(chars@, i as int) == Option::Some(
                (p.0.deep(), p.1 as int),
            ) && p.1 <= chars@.len(),
            Option::None => spec_not_factor_tight(chars@, i as int) is None,
        },
    decreases chars@.len() - i, 4int,
{
    let ghost bang: Seq<char> = seq!['!'];
    proof {
        assert(bang[0] == '!');
    }
    let j_opt = match kw_not(chars, i) {
        Some(j) => Some(j),
        None => if i < chars.len() && chars[i] == '!' {
            Some(i + 1)
        } else {
            None
        },
    };
    match j_opt {
        None => None,
        Some(j) => match parens(chars, j) {
            None => None,
            Some((q, j2)) => Some((Query::Not(Box::new(q)), j2)),
        },
    }
}

fn factor(chars: &Vec<char>, i: usize) -> (r: Option<(Query, usize)>)
    requires
        i <= chars@.len(),
    ensures
        match r {
            Option::Some(p) => spec_factor(chars@, i as int) == Option::Some(
                (p.0.deep(), p.1 as int),
            ) && p.1 <= chars@.len(),
            Option::None => spec_factor(chars@, i as int) is None,
        },
    decreases chars@.len() - i, 3int,
{
    match parens(chars, i) {
        Some(p) => Some(p),
        None => parse_query(chars, i),
    }
}

fn parens(chars: &Vec<char>, i: usize) -> (r: Option<(Query, usize)>)
    requires
        i <= chars@.len(),
    ensures
        match r {
            Option::Some(p) => spec_parens(chars@, i as int) == Option::Some(
                (p.0.deep(), p.1 as int),
            ) && p.1 <= chars@.len(),
            Option::None => spec_parens(chars@, i as int) is None,
        },
    decreases chars@.len() - i, 2int,
{
    if i < chars.len() && chars[i] == '(' {
        let j = skip_spaces(chars, i + 1);
        match expression(chars, j) {
            None => None,
            Some((q, j2)) => if j2 < chars.len() && chars[j2] == ')' {
                Some((q, skip_spaces(chars, j2 + 1)))
            } else {
                None
            },
        }
    } else {
        None
    }
}

fn parse_query(chars: &Vec<char>, i: usize) -> (r: Option<(Query, usize)>)
    requires
        i <= chars@.len(),
    ensures
        match r {
            Option::Some(p) => spec_query(chars@, i as int) == Option::Some(
                (p.0.deep(), p.1 as int),
            ) && p.1 <= chars@.len(),
            Option::None => spec_query(chars@, i as int) is None,
        },
    decreases chars@.len() - i, 2int,
{
    if i < chars.len() && chars[i] == '*' {
        Some((Query::Wildcard, skip_spaces(chars, i + 1)))
    } else {
        match field_text(chars, i) {
            Some(p) => Some(p),
            None => match quoted(chars, i) {
                Some(p) => Some(p),
                None => word(chars, i),
            },
        }
    }
}

fn field_text(chars: &Vec<char>, i: usize) -> (r: Option<(Query, usize)>)
    requires
        i <= chars@.len(),
    ensures
        match r {
            Option::Some(p) => spec_field_text(chars@, i as int) == Option::Some(
                (p.0.deep(), p.1 as int),
            ) && p.1 <= chars@.len(),
            Option::None => spec_field_text(chars@, i as int) is None,
        },
    decreases chars@.len() - i, 1int,
{
    let e = field_end(chars, i);
    if e == i {
        None
    } else if e < chars.len() && chars[e] == ':' {
        match factor(chars, e + 1) {
            None => None,
            Some((q, j)) => {
                let name = chars_substring(chars, i, e);
                Some((Query::FieldPattern(name, Box::new(q)), j))
            },
        }
    } else {
        None
    }
}

fn quoted(chars: &Vec<char>, i: usize) -> (r: Option<(Query, usize)>)
    requires
        i <= chars@.len(),
    ensures
        match r {
            Option::Some(p) => spec_quoted(chars@, i as int) == Option::Some(
                (p.0.deep(), p.1 as int),
            ) && p.1 <= chars@.len(),
            Option::None => spec_quoted(chars@, i as int) is None,
        },
{
    if i < chars.len() && chars[i] == '"' {
        let e = unquoted_end(chars, i + 1);
        if e > i + 1 && e < chars.len() && chars[e] == '"' {
            let content = chars_substring(chars, i + 1, e);
            Some((Query::Pattern(content), skip_spaces(chars, e + 1)))
        } else {
            None
        }
    } else {
        None
    }
}

fn word(chars: &Vec<char>, i: usize) -> (r: Option<(Query, usize)>)
    requires
        i <= chars@.len(),
    ensures
        match r {
            Option::Some(p) => spec_word(chars@, i as int) == Option::Some(
                (p.0.deep(), p.1 as int),
            ) && p.1 <= chars@.len(),
            Option::None => spec_word(chars@, i as int) is None,
        },
{
    let e = word_end(chars, i);
    if e == i {
        None
    } else {
        let content = chars_substring(chars, i, e);
        Some((Query::Pattern(content), skip_spaces(chars, e)))
    }
}

/// The ghost grammar accepts the whole input.
pub open spec fn spec_parses_fully(s: Seq<char>) -> bool {
    match spec_expression(s, 0) {
        Option::Some(p) => p.1 >= s.len(),
        Option::None => false,
    }
}

/// Parses a predicate.
///
/// Returns the query exactly when the ghost grammar accepts the whole
/// input; reports `ParseError` when no prefix parses and
/// `UnrecognizedInput` with the leftover text when only a prefix does.
pub fn parse(input: &str) -> (r: Result<Query, QueryParseError>)
    ensures
        (r is Ok) == spec_parses_fully(input@),
        match spec_expression(input@, 0) {
            Option::None => r matches Err(QueryParseError::ParseError(m)) && m@ == input@,
            Option::Some(p) => if p.1 < input@.len() {
                r matches Err(QueryParseError::UnrecognizedInput(rest)) && rest@
                    == input@.subrange(p.1, input@.len() as int)
            } else {
                r matches Ok(q) && q.deep() == p.0
            },
        },
{
    let chars = str_chars(input);
    match expression(&chars, 0) {
        None => Err(QueryParseError::ParseError(input.to_owned())),
        Some((q, pos)) => if pos < chars.len() {
            let rest = chars_substring(&chars, pos, chars.len());
            Err(QueryParseError::UnrecognizedInput(rest))
        } else {
            Ok(q)
        },
    }
}

} // verus!
