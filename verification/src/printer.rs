//! The canonical rendering of a query: patterns and field names as they
//! stand, `*` for the wildcard, `!( … )` for negation, n-ary nodes joined
//! with ` and ` / ` or `, and parentheses exactly where the grammar's
//! precedence needs them.

use vstd::prelude::*;
use crate::query::Query;

verus! {

broadcast use
    vstd::seq::axiom_seq_index_decreases,
    vstd::std_specs::vec::axiom_vec_index_decreases,
    vstd::std_specs::vec::axiom_vec_decreases_to_view;

/// A word the canonical text can leave bare: nonempty, made of word
/// characters, and not reading as the `not` keyword.
pub open spec fn spec_bare_word(p: Seq<char>) -> bool {
    &&& p.len() > 0
    &&& forall|k: int| 0 <= k < p.len() ==> crate::parser::spec_is_word_char(#[trigger] p[k])
    &&& !spec_nocase_not(p)
}

/// A word that reads as the `not` keyword, in any letter case.
pub open spec fn spec_nocase_not(p: Seq<char>) -> bool {
    p.len() == 3 && crate::parser::spec_eq_nocase(p[0], 'n') && crate::parser::spec_eq_nocase(
        p[1],
        'o',
    ) && crate::parser::spec_eq_nocase(p[2], 't')
}

/// The canonical text of a query.
pub open spec fn spec_print(q: Query) -> Seq<char>
    decreases q, 3int,
{
    match q {
        Query::Pattern(p) => if spec_bare_word(p@) {
            p@
        } else {
            seq!['"'] + p@ + seq!['"']
        },
        Query::Wildcard => seq!['*'],
        Query::FieldPattern(f, sub) => f@ + seq![':'] + spec_print_factor(*sub),
        Query::Not(sub) => seq!['!', '('] + spec_print(*sub) + seq![')'],
        Query::And(cs) => spec_print_and_list(cs@, 0),
        Query::Or(cs) => spec_print_or_list(cs@, 0),
    }
}

/// A sub-query in factor position: boolean forms go in parentheses.
pub open spec fn spec_print_factor(q: Query) -> Seq<char>
    decreases q, 4int,
{
    match q {
        Query::And(_) => seq!['('] + spec_print(q) + seq![')'],
        Query::Or(_) => seq!['('] + spec_print(q) + seq![')'],
        Query::Not(_) => seq!['('] + spec_print(q) + seq![')'],
        _ => spec_print(q),
    }
}

/// An element of an `and` list: nested lists go in parentheses.
pub open spec fn spec_print_and_elem(q: Query) -> Seq<char>
    decreases q, 4int,
{
    match q {
        Query::And(_) => seq!['('] + spec_print(q) + seq![')'],
        Query::Or(_) => seq!['('] + spec_print(q) + seq![')'],
        _ => spec_print(q),
    }
}

/// An element of an `or` list: an `and` list stands bare, a nested `or`
/// goes in parentheses.
pub open spec fn spec_print_or_elem(q: Query) -> Seq<char>
    decreases q, 4int,
{
    match q {
        Query::Or(_) => seq!['('] + spec_print(q) + seq![')'],
        _ => spec_print(q),
    }
}

pub open spec fn spec_print_and_list(cs: Seq<Query>, i: int) -> Seq<char>
    decreases cs, cs.len() - i,
{
    if i < 0 || i >= cs.len() {
        Seq::empty()
    } else if i == cs.len() - 1 {
        spec_print_and_elem(cs[i])
    } else {
        spec_print_and_elem(cs[i]) + seq![' ', 'a', 'n', 'd', ' '] + spec_print_and_list(
            cs,
            i + 1,
        )
    }
}

pub open spec fn spec_print_or_list(cs: Seq<Query>, i: int) -> Seq<char>
    decreases cs, cs.len() - i,
{
    if i < 0 || i >= cs.len() {
        Seq::empty()
    } else if i == cs.len() - 1 {
        spec_print_or_elem(cs[i])
    } else {
        spec_print_or_elem(cs[i]) + seq![' ', 'o', 'r', ' '] + spec_print_or_list(cs, i + 1)
    }
}

fn push_str_chars(out: &mut Vec<char>, s: &str)
    ensures
        final(out)@ == old(out)@ + s@,
{
    let n = s.unicode_len();
    let mut i: usize = 0;
    while i < n
        invariant
            i <= n,
            n == s@.len(),
            out@ == old(out)@ + s@.subrange(0, i as int),
        decreases n - i,
    {
        out.push(s.get_char(i));
        proof {
            assert(out@ =~= old(out)@ + s@.subrange(0, i as int + 1));
        }
        i = i + 1;
    }
    proof {
        assert(out@ =~= old(out)@ + s@);
    }
}

fn is_bare_word(p: &str) -> (r: bool)
    ensures
        r == spec_bare_word(p@),
{
    let n = p.unicode_len();
    if n == 0 {
        return false;
    }
    if n == 3 {
        let a = p.get_char(0);
        let b = p.get_char(1);
        let c = p.get_char(2);
        if (a == 'n' || a == 'N') && (b == 'o' || b == 'O') && (c == 't' || c == 'T') {
            proof {
                assert((('N' as u32) + 32) == ('n' as u32));
                assert((('O' as u32) + 32) == ('o' as u32));
                assert((('T' as u32) + 32) == ('t' as u32));
            }
            return false;
        }
        proof {
            assert(!spec_nocase_not(p@)) by {
                if crate::parser::spec_eq_nocase(p@[0], 'n') && crate::parser::spec_eq_nocase(
                    p@[1],
                    'o',
                ) && crate::parser::spec_eq_nocase(p@[2], 't') {
                    assert(false);
                }
            }
        }
    }
    let mut i: usize = 0;
    while i < n
        invariant
            i <= n,
            n == p@.len(),
            forall|k: int| 0 <= k < i ==> crate::parser::spec_is_word_char(#[trigger] p@[k]),
        decreases n - i,
    {
        if !crate::parser::is_word_char(p.get_char(i)) {
            return false;
        }
        i = i + 1;
    }
    true
}

fn print_into(q: &Query, out: &mut Vec<char>)
    ensures
        final(out)@ == old(out)@ + spec_print(*q),
    decreases *q, 3int,
{
    match q {
        Query::Pattern(p) => {
            if is_bare_word(p.as_str()) {
                push_str_chars(out, p.as_str());
            } else {
                out.push('"');
                push_str_chars(out, p.as_str());
                out.push('"');
                proof {
                    assert(out@ =~= old(out)@ + (seq!['"'] + p@ + seq!['"']));
                }
            }
        },
        Query::Wildcard => {
            out.push('*');
            proof {
                assert(out@ =~= old(out)@ + seq!['*']);
            }
        },
        Query::FieldPattern(f, sub) => {
            push_str_chars(out, f.as_str());
            out.push(':');
            print_factor_into(sub, out);
            proof {
                assert(out@ =~= old(out)@ + (f@ + seq![':'] + spec_print_factor(**sub)));
            }
        },
        Query::Not(sub) => {
            out.push('!');
            out.push('(');
            print_into(sub, out);
            out.push(')');
            proof {
                assert(out@ =~= old(out)@ + (seq!['!', '('] + spec_print(**sub) + seq![')']));
            }
        },
        Query::And(cs) => {
            print_and_list_into(cs, 0, out);
        },
        Query::Or(cs) => {
            print_or_list_into(cs, 0, out);
        },
    }
}

fn print_parens_into(q: &Query, out: &mut Vec<char>)
    ensures
        final(out)@ == old(out)@ + seq!['('] + spec_print(*q) + seq![')'],
    decreases *q, 4int,
{
    out.push('(');
    print_into(q, out);
    out.push(')');
    proof {
        assert(out@ =~= old(out)@ + seq!['('] + spec_print(*q) + seq![')']);
    }
}

fn print_factor_into(q: &Query, out: &mut Vec<char>)
    ensures
        final(out)@ == old(out)@ + spec_print_factor(*q),
    decreases *q, 5int,
{
    match q {
        Query::And(_) => print_parens_into(q, out),
        Query::Or(_) => print_parens_into(q, out),
        Query::Not(_) => print_parens_into(q, out),
        _ => print_into(q, out),
    }
}

fn print_and_elem_into(q: &Query, out: &mut Vec<char>)
    ensures
        final(out)@ == old(out)@ + spec_print_and_elem(*q),
    decreases *q, 5int,
{
    match q {
        Query::And(_) => print_parens_into(q, out),
        Query::Or(_) => print_parens_into(q, out),
        _ => print_into(q, out),
    }
}

fn print_or_elem_into(q: &Query, out: &mut Vec<char>)
    ensures
        final(out)@ == old(out)@ + spec_print_or_elem(*q),
    decreases *q, 5int,
{
    match q {
        Query::Or(_) => print_parens_into(q, out),
        _ => print_into(q, out),
    }
}

fn print_and_list_into(cs: &Vec<Query>, i: usize, out: &mut Vec<char>)
    requires
        i <= cs@.len(),
    ensures
        final(out)@ == old(out)@ + spec_print_and_list(cs@, i as int),
    decreases cs@, cs@.len() - i,
{
    if i >= cs.len() {
        proof {
            assert(out@ =~= old(out)@ + spec_print_and_list(cs@, i as int));
        }
        return ;
    }
    print_and_elem_into(&cs[i], out);
    if i + 1 < cs.len() {
        push_str_chars(out, " and ");
        print_and_list_into(cs, i + 1, out);
        proof {
            reveal_strlit(" and ");
            assert(" and "@ =~= seq![' ', 'a', 'n', 'd', ' ']);
            assert(out@ =~= old(out)@ + spec_print_and_list(cs@, i as int));
        }
    } else {
        proof {
            assert(out@ =~= old(out)@ + spec_print_and_list(cs@, i as int));
        }
    }
}

fn print_or_list_into(cs: &Vec<Query>, i: usize, out: &mut Vec<char>)
    requires
        i <= cs@.len(),
    ensures
        final(out)@ == old(out)@ + spec_print_or_list(cs@, i as int),
    decreases cs@, cs@.len() - i,
{
    if i >= cs.len() {
        proof {
            assert(out@ =~= old(out)@ + spec_print_or_list(cs@, i as int));
        }
        return ;
    }
    print_or_elem_into(&cs[i], out);
    if i + 1 < cs.len() {
        push_str_chars(out, " or ");
        print_or_list_into(cs, i + 1, out);
        proof {
            reveal_strlit(" or ");
            assert(" or "@ =~= seq![' ', 'o', 'r', ' ']);
            assert(out@ =~= old(out)@ + spec_print_or_list(cs@, i as int));
        }
    } else {
        proof {
            assert(out@ =~= old(out)@ + spec_print_or_list(cs@, i as int));
        }
    }
}

/// The canonical text of a query, as a string.
pub fn to_query_string(q: &Query) -> (r: String)
    ensures
        r@ == spec_print(*q),
{
    let mut out: Vec<char> = Vec::new();
    print_into(q, &mut out);
    proof {
        assert(out@ =~= spec_print(*q));
    }
    crate::parser::chars_to_string(&out)
}

} // verus!

verus! {

// ------------------------------------------------------------------
// Parser idempotence for simple queries: parsing the canonical text of
// a pattern, the wildcard, or a chain of field patterns yields the query
// back, with nothing left over.
// ------------------------------------------------------------------

use crate::parser::{SpecQuery, spec_expression, spec_or_rest, spec_term, spec_and_rest,
    spec_not_factor, spec_not_factor_worded, spec_not_factor_symbol, spec_not_factor_tight,
    spec_factor, spec_parens, spec_query, spec_field_text, spec_quoted, spec_word,
    spec_word_end, spec_field_end, spec_unquoted_end, spec_skip_spaces, spec_is_word_char,
    spec_is_field_char,
    spec_is_space, spec_keyword, spec_token, spec_or_sep, spec_and_sep, spec_eq_nocase,
    spec_or, spec_deep_seq};

/// A printable field name: nonempty and made of field characters.
pub open spec fn spec_printable_field(f: Seq<char>) -> bool {
    f.len() > 0 && forall|k: int| 0 <= k < f.len() ==> spec_is_field_char(#[trigger] f[k])
}

/// A query whose canonical text parses back to it: patterns nonempty and
/// free of double quotes, field names well formed, and every `and`/`or`
/// node carrying at least two clauses — as every parsed query is.
pub open spec fn spec_printable(q: Query) -> bool
    decreases q, 1int,
{
    match q {
        Query::Pattern(p) => p@.len() > 0 && (forall|k: int|
            0 <= k < p@.len() ==> (#[trigger] p@[k]) != '"'),
        Query::Wildcard => true,
        Query::FieldPattern(f, sub) => spec_printable_field(f@) && spec_printable(*sub),
        Query::Not(sub) => spec_printable(*sub),
        Query::And(cs) => cs@.len() >= 2 && spec_printable_from(cs@, 0),
        Query::Or(cs) => cs@.len() >= 2 && spec_printable_from(cs@, 0),
    }
}

pub open spec fn spec_printable_from(cs: Seq<Query>, k: int) -> bool
    decreases cs, cs.len() - k,
{
    if k < 0 || k >= cs.len() {
        true
    } else {
        spec_printable(cs[k]) && spec_printable_from(cs, k + 1)
    }
}

/// The end of the input or a closing parenthesis: where a whole
/// expression may stop.
pub open spec fn spec_expr_stop(s: Seq<char>, j: int) -> bool {
    j == s.len() || (0 <= j < s.len() && s[j] == ')')
}

/// An ` or ` separator stands at `j`.
pub open spec fn spec_or_follows(s: Seq<char>, j: int) -> bool {
    &&& 0 <= j && j + 4 <= s.len()
    &&& s[j] == ' '
    &&& s[j + 1] == 'o'
    &&& s[j + 2] == 'r'
    &&& s[j + 3] == ' '
}

/// An ` and ` separator stands at `j`.
pub open spec fn spec_and_follows(s: Seq<char>, j: int) -> bool {
    &&& 0 <= j && j + 5 <= s.len()
    &&& s[j] == ' '
    &&& s[j + 1] == 'a'
    &&& s[j + 2] == 'n'
    &&& s[j + 3] == 'd'
    &&& s[j + 4] == ' '
}

/// Where a term may stop: an expression stop or an ` or ` separator.
pub open spec fn spec_term_stop(s: Seq<char>, j: int) -> bool {
    spec_expr_stop(s, j) || spec_or_follows(s, j)
}

/// Where an `and` element may stop: a term stop or an ` and ` separator.
pub open spec fn spec_elem_stop(s: Seq<char>, j: int) -> bool {
    spec_term_stop(s, j) || spec_and_follows(s, j)
}

/// The character at an element stop, if any: `)` or a space.
proof fn lemma_elem_stop_char(s: Seq<char>, j: int)
    requires
        spec_elem_stop(s, j),
    ensures
        j == s.len() || (0 <= j < s.len() && (s[j] == ')' || s[j] == ' ')),
{
}

proof fn lemma_field_char_classes(c: char)
    requires
        spec_is_field_char(c),
    ensures
        spec_is_word_char(c),
        c != ':',
        c != '(',
        c != ')',
        c != '*',
        c != '!',
        c != '"',
        !spec_is_space(c),
{
    if c == ' ' || c == '(' || c == ')' || c == ':' || c == ',' || c == '&' || c == '|' || c == '*'
        || c == '!' || c == '"' || c == '\t' || c == '\r' || c == '\n' {
        assert(!spec_is_field_char(c));
    }
}

proof fn lemma_word_end_run(s: Seq<char>, i: int, e: int)
    requires
        0 <= i <= e <= s.len(),
        forall|k: int| i <= k < e ==> spec_is_word_char(#[trigger] s[k]),
        e == s.len() || !spec_is_word_char(s[e]),
    ensures
        spec_word_end(s, i) == e,
    decreases e - i,
{
    if i < e {
        lemma_word_end_run(s, i + 1, e);
    }
}

proof fn lemma_field_end_run(s: Seq<char>, i: int, e: int)
    requires
        0 <= i <= e <= s.len(),
        forall|k: int| i <= k < e ==> spec_is_field_char(#[trigger] s[k]),
        e == s.len() || !spec_is_field_char(s[e]),
    ensures
        spec_field_end(s, i) == e,
    decreases e - i,
{
    if i < e {
        lemma_field_end_run(s, i + 1, e);
    }
}

proof fn lemma_skip_bounds(s: Seq<char>, x: int)
    requires
        0 <= x <= s.len(),
    ensures
        x <= spec_skip_spaces(s, x) <= s.len(),
    decreases s.len() - x,
{
    if x < s.len() && spec_is_space(s[x]) {
        lemma_skip_bounds(s, x + 1);
    }
}

proof fn lemma_subrange_chars(s: Seq<char>, i: int, j: int, t: Seq<char>)
    requires
        0 <= i <= j <= s.len(),
        s.subrange(i, j) == t,
    ensures
        j - i == t.len(),
        forall|k: int| i <= k < j ==> #[trigger] s[k] == t[k - i],
{
    assert forall|k: int| i <= k < j implies #[trigger] s[k] == t[k - i] by {
        assert(s.subrange(i, j)[k - i] == s[k]);
    }
}

/// The shapes a printable query's texts take: all nonempty, none opening
/// with whitespace or a closing parenthesis; `!` opens exactly the
/// negations; `(` opens exactly the parenthesised element forms.
proof fn lemma_print_shape(q: Query)
    requires
        spec_printable(q),
    ensures
        spec_print(q).len() > 0,
        !spec_is_space(spec_print(q)[0]),
        spec_print(q)[0] != ')',
        !(q is And) && !(q is Or) ==> ((spec_print(q)[0] == '!') == (q is Not)),
        q is Not ==> spec_print(q).len() >= 3 && spec_print(q)[1] == '(',
        !(q is And) && !(q is Or) && !(q is Not) ==> spec_print(q)[0] != '(',
        spec_print_and_elem(q).len() > 0 && !spec_is_space(spec_print_and_elem(q)[0]),
        spec_print_or_elem(q).len() > 0 && !spec_is_space(spec_print_or_elem(q)[0]),
        (q is And || q is Or) ==> spec_print_and_elem(q) == seq!['('] + spec_print(q) + seq![')'],
        !(q is And || q is Or) ==> spec_print_and_elem(q) == spec_print(q),
        q is Or ==> spec_print_or_elem(q) == seq!['('] + spec_print(q) + seq![')'],
        !(q is Or) ==> spec_print_or_elem(q) == spec_print(q),
    decreases q, 2int,
{
    match q {
        Query::Pattern(p) => {
            if spec_bare_word(p@) {
                assert(spec_print(q)[0] == p@[0]);
                lemma_field_char_classes(p@[0]);
            } else {
                assert(spec_print(q)[0] == '"');
            }
        },
        Query::Wildcard => {
            assert(spec_print(q)[0] == '*');
        },
        Query::FieldPattern(f, sub) => {
            assert(spec_print(q)[0] == f@[0]);
            lemma_field_char_classes(f@[0]);
        },
        Query::Not(sub) => {
            assert(spec_print(q)[0] == '!');
            assert(spec_print(q)[1] == '(');
        },
        Query::And(cs) => {
            assert(spec_printable(cs@[0])) by {
                assert(spec_printable_from(cs@, 0));
            }
            lemma_print_shape(cs@[0]);
            assert(spec_print(q) == spec_print_and_list(cs@, 0));
            assert(spec_print(q)[0] == spec_print_and_elem(cs@[0])[0]);
            assert(spec_print_and_elem(cs@[0])[0] != ')') by {
                if cs@[0] is And || cs@[0] is Or {
                } else {
                }
            }
        },
        Query::Or(cs) => {
            assert(spec_printable(cs@[0])) by {
                assert(spec_printable_from(cs@, 0));
            }
            lemma_print_shape(cs@[0]);
            assert(spec_print(q) == spec_print_or_list(cs@, 0));
            assert(spec_print(q)[0] == spec_print_or_elem(cs@[0])[0]);
            assert(spec_print_or_elem(cs@[0])[0] != ')') by {
                if cs@[0] is Or {
                } else if cs@[0] is And {
                    assert(spec_print_or_elem(cs@[0]) == spec_print(cs@[0]));
                } else {
                }
            }
        },
    }
}

proof fn lemma_kw_none_at(s: Seq<char>, j: int, kw: Seq<char>)
    requires
        kw.len() > 0,
        0 <= j,
        j == s.len() || (j < s.len() && !spec_eq_nocase(s[j], kw[0])),
    ensures
        spec_keyword(s, j, kw) is None,
        spec_token(s, j, kw) is None,
{
    if j < s.len() {
        if spec_keyword(s, j, kw) is Some {
            assert(spec_eq_nocase(s[j + 0], kw[0]));
            assert(false);
        }
        if spec_token(s, j, kw) is Some {
            assert(s[j + 0] == kw[0]);
            assert(false);
        }
    }
}

/// At an expression stop, no list separator applies; where an ` or `
/// separator follows a consumed space, no `and` separator applies.
proof fn lemma_seps_none(s: Seq<char>, j: int)
    requires
        0 <= j,
        j == s.len() || (j < s.len() && (s[j] == ')' || s[j] == 'o')),
    ensures
        spec_and_sep(s, j) is None,
        s[j] == ')' || j == s.len() ==> spec_or_sep(s, j) is None,
    decreases 0int,
{
    let c = if j < s.len() {
        s[j]
    } else {
        ')'
    };
    assert(!spec_eq_nocase(')', 'a') && !spec_eq_nocase('o', 'a')) by {
        assert(((')' as u32) + 32) != ('a' as u32));
        assert((('o' as u32) + 32) != ('a' as u32));
    }
    assert(!spec_eq_nocase(')', '&') && !spec_eq_nocase('o', '&')) by {
        assert(((')' as u32) + 32) != ('&' as u32));
        assert((('o' as u32) + 32) != ('&' as u32));
    }
    assert(!spec_eq_nocase(')', 'o')) by {
        assert(((')' as u32) + 32) != ('o' as u32));
    }
    assert(!spec_eq_nocase(')', '|') && !spec_eq_nocase(')', ',')) by {
        assert(((')' as u32) + 32) != ('|' as u32));
        assert(((')' as u32) + 32) != (',' as u32));
    }
    lemma_kw_none_at(s, j, seq!['a', 'n', 'd']);
    lemma_kw_none_at(s, j, seq!['&', '&']);
    if j == s.len() || s[j] == ')' {
        lemma_kw_none_at(s, j, seq!['o', 'r']);
        lemma_kw_none_at(s, j, seq!['|', '|']);
        lemma_kw_none_at(s, j, seq![',']);
    }
}

/// After a match of the `not` keyword on a printable non-list query's
/// canonical text, the next character is neither whitespace nor an
/// opening parenthesis.
#[verifier::spinoff_prover]
#[verifier::rlimit(100)]
proof fn lemma_not_kw_analysis(s: Seq<char>, i: int, q: Query)
    requires
        0 <= i,
        i + spec_print(q).len() <= s.len(),
        s.subrange(i, i + spec_print(q).len()) == spec_print(q),
        spec_elem_stop(s, i + spec_print(q).len()),
        spec_printable(q),
        !(q is And),
        !(q is Or),
    ensures
        spec_keyword(s, i, seq!['n', 'o', 't']) matches Option::Some(j) ==> j == i + 3 && (j
            < s.len() ==> !spec_is_space(s[j]) && s[j] != '('),
{
    let pr = spec_print(q);
    let e2 = i + pr.len();
    lemma_subrange_chars(s, i, e2, pr);
    lemma_elem_stop_char(s, e2);
    match spec_keyword(s, i, seq!['n', 'o', 't']) {
    Option::None => {
    },
    Option::Some(j) => {
        assert(seq!['n', 'o', 't'][0] == 'n' && seq!['n', 'o', 't'][1] == 'o' && seq![
            'n',
            'o',
            't',
        ][2] == 't');
        assert(spec_eq_nocase(s[i + 0], 'n'));
        assert(spec_eq_nocase(s[i + 1], 'o'));
        assert(spec_eq_nocase(s[i + 2], 't'));
        assert(j == i + 3);
        assert(!spec_eq_nocase(')', 'o') && !spec_eq_nocase(' ', 'o')) by {
            assert(((')' as u32) + 32) != ('o' as u32));
            assert(((' ' as u32) + 32) != ('o' as u32));
        }
        assert(!spec_eq_nocase(')', 't') && !spec_eq_nocase(' ', 't')) by {
            assert(((')' as u32) + 32) != ('t' as u32));
            assert(((' ' as u32) + 32) != ('t' as u32));
        }
        match q {
            Query::Pattern(p) => {
                if spec_bare_word(p@) {
                    assert(forall|k: int| i <= k < e2 ==> #[trigger] s[k] == p@[k - i]);
                    if p@.len() <= 2 {
                        assert(s[e2] == ')' || s[e2] == ' ');
                        if p@.len() == 1 {
                            assert(false);
                        } else {
                            assert(false);
                        }
                    } else if p@.len() == 3 {
                        assert(spec_nocase_not(p@));
                        assert(false);
                    } else {
                        assert(s[i + 3] == p@[3]);
                        lemma_field_char_classes(p@[3]);
                    }
                } else {
                    assert(s[i + 0] == pr[0]);
                    assert(pr[0] == '"');
                    assert(!spec_eq_nocase('"', 'n')) by {
                        assert((('"' as u32) + 32) != ('n' as u32));
                    }
                    assert(false);
                }
            },
            Query::Wildcard => {
                assert(s[i + 0] == pr[0]);
                assert(pr[0] == '*');
                assert(!spec_eq_nocase('*', 'n')) by {
                    assert((('*' as u32) + 32) != ('n' as u32));
                }
                assert(false);
            },
            Query::FieldPattern(f, sub) => {
                let fl = f@.len() as int;
                assert forall|k: int| 0 <= k < fl implies s[i + k] == #[trigger] f@[k] by {
                    assert(s[i + k] == pr[k]);
                    assert(pr[k] == f@[k]);
                }
                assert(s[i + fl] == pr[fl]);
                assert(pr[fl] == ':');
                assert(!spec_eq_nocase(':', 'o') && !spec_eq_nocase(':', 't')) by {
                    assert(((':' as u32) + 32) != ('o' as u32));
                    assert(((':' as u32) + 32) != ('t' as u32));
                }
                if fl == 1 {
                    assert(false);
                } else if fl == 2 {
                    assert(false);
                } else if fl == 3 {
                    assert(s[i + 3] == ':');
                    assert(!spec_is_space(':') && ':' != '(');
                } else {
                    assert(s[i + 3] == f@[3]);
                    lemma_field_char_classes(f@[3]);
                }
            },
            Query::Not(sub) => {
                assert(s[i + 0] == pr[0]);
                assert(pr[0] == '!');
                assert(!spec_eq_nocase('!', 'n')) by {
                    assert((('!' as u32) + 32) != ('n' as u32));
                }
                assert(false);
            },
            _ => {
                assert(false);
            },
        }
    },
    }
}

/// The spelled-out negation never applies to a printable non-list query's
/// canonical text.
proof fn lemma_worded_none(s: Seq<char>, i: int, q: Query)
    requires
        0 <= i,
        i + spec_print(q).len() <= s.len(),
        s.subrange(i, i + spec_print(q).len()) == spec_print(q),
        spec_elem_stop(s, i + spec_print(q).len()),
        spec_printable(q),
        !(q is And),
        !(q is Or),
    ensures
        spec_not_factor_worded(s, i) is None,
{
    lemma_not_kw_analysis(s, i, q);
}

/// Neither the symbolic nor the tight negation applies to the canonical
/// text of a printable query that is none of the negated or list forms.
proof fn lemma_symbol_tight_none(s: Seq<char>, i: int, q: Query)
    requires
        0 <= i,
        i + spec_print(q).len() <= s.len(),
        s.subrange(i, i + spec_print(q).len()) == spec_print(q),
        spec_elem_stop(s, i + spec_print(q).len()),
        spec_printable(q),
        !(q is And),
        !(q is Or),
        !(q is Not),
    ensures
        spec_not_factor_symbol(s, i) is None,
        spec_not_factor_tight(s, i) is None,
{
    lemma_not_kw_analysis(s, i, q);
    lemma_print_shape(q);
    assert(s[i + 0] == spec_print(q)[0]) by {
        lemma_subrange_chars(s, i, i + spec_print(q).len(), spec_print(q));
    }
    assert(s[i] != '!');
    assert(spec_token(s, i, seq!['!']) is None) by {
        if spec_token(s, i, seq!['!']) is Some {
            assert(seq!['!'][0] == '!');
            assert(s[i + 0] == seq!['!'][0]);
            assert(false);
        }
    }
    match spec_keyword(s, i, seq!['n', 'o', 't']) {
        Option::Some(j) => {
            assert(spec_parens(s, j) is None);
        },
        Option::None => {
        },
    }
}

/// Parsing the canonical text of a printable non-list query in
/// simple-query position yields the query back, stopping at the skip of
/// its end.
#[verifier::spinoff_prover]
#[verifier::rlimit(100)]
proof fn lemma_query_at(s: Seq<char>, i: int, q: Query)
    requires
        0 <= i,
        i + spec_print(q).len() <= s.len(),
        s.subrange(i, i + spec_print(q).len()) == spec_print(q),
        spec_elem_stop(s, i + spec_print(q).len()),
        spec_printable(q),
        !(q is And),
        !(q is Or),
        !(q is Not),
    ensures
        spec_query(s, i) == Option::Some(
            (q.deep(), spec_skip_spaces(s, i + spec_print(q).len())),
        ),
    decreases q, 2int, 0int,
{
    let pr = spec_print(q);
    let e2 = i + pr.len();
    lemma_subrange_chars(s, i, e2, pr);
    lemma_elem_stop_char(s, e2);
    assert(!spec_is_field_char(')') && !spec_is_word_char(')')) by {
        assert(((')' as u32) % 256) == 41);
    }
    assert(!spec_is_field_char(' ') && !spec_is_word_char(' ')) by {
        assert(((' ' as u32) % 256) == 32);
    }
    assert(!spec_is_field_char('"') && !spec_is_word_char('"')) by {
        assert((('"' as u32) % 256) == 34);
    }
    match q {
        Query::Pattern(p) => {
            if spec_bare_word(p@) {
                assert(forall|k: int| i <= k < e2 ==> #[trigger] s[k] == p@[k - i]);
                assert(s[i] == p@[0]);
                lemma_field_char_classes(p@[0]);
                assert(s[i] != '*');
                assert forall|k: int| i <= k < e2 implies spec_is_word_char(#[trigger] s[k]) by {
                    assert(s[k] == p@[k - i]);
                }
                lemma_word_end_run(s, i, e2);
                lemma_field_end_run(s, i, e2);
                let e = spec_field_end(s, i);
                assert(e == e2);
                if e2 < s.len() {
                    assert(s[e] != ':');
                }
                assert(spec_field_text(s, i) is None);
                assert(s[i] != '"');
                assert(spec_quoted(s, i) is None);
                assert(s.subrange(i, e2) =~= p@);
                assert(spec_word(s, i) == Option::Some(
                    (SpecQuery::Pattern(p@), spec_skip_spaces(s, e2)),
                ));
                assert(q.deep() == SpecQuery::Pattern(p@));
            } else {
                // quoted rendering: "p"
                assert(pr =~= seq!['"'] + p@ + seq!['"']);
                assert(s[i + 0] == pr[0]);
                assert(pr[0] == '"');
                assert(s[i] != '*');
                assert(spec_field_end(s, i) == i) by {
                    assert(!spec_is_field_char(s[i]));
                }
                assert(spec_field_text(s, i) is None);
                let pl = p@.len() as int;
                assert forall|k: int| 0 <= k < pl implies s[i + 1 + k] == #[trigger] p@[k] by {
                    assert(s[i + 1 + k] == pr[1 + k]);
                    assert(pr[1 + k] == p@[k]);
                }
                assert(s[i + 1 + pl] == pr[1 + pl]);
                assert(pr[1 + pl] == '"');
                assert forall|k: int| i + 1 <= k < i + 1 + pl implies #[trigger] s[k] != '"' by {
                    assert(s[k] == p@[k - i - 1]);
                }
                lemma_unquoted_end_run(s, i + 1, i + 1 + pl);
                let e = spec_unquoted_end(s, i + 1);
                assert(e == i + 1 + pl);
                assert(e > i + 1) by {
                    assert(p@.len() > 0);
                }
                assert(e < s.len() && s[e] == '"');
                assert(s.subrange(i + 1, e) =~= p@);
                assert(spec_quoted(s, i) == Option::Some(
                    (SpecQuery::Pattern(p@), spec_skip_spaces(s, e + 1)),
                ));
                assert(e + 1 == e2);
                assert(q.deep() == SpecQuery::Pattern(p@));
            }
        },
        Query::Wildcard => {
            assert(pr[0] == '*');
            assert(s[i + 0] == pr[0]);
        },
        Query::FieldPattern(f, sub) => {
            lemma_print_shape(*sub);
            let fl = f@.len() as int;
            let fp = spec_print_factor(*sub);
            assert(fp == spec_print_and_elem(*sub) || fp == seq!['('] + spec_print(*sub) + seq![
                ')',
            ] || fp == spec_print(*sub)) by {
                match *sub {
                    Query::And(_) => {},
                    Query::Or(_) => {},
                    Query::Not(_) => {},
                    _ => {},
                }
            }
            assert(pr.len() == fl + 1 + fp.len());
            assert forall|k: int| 0 <= k < fl implies s[i + k] == #[trigger] f@[k] by {
                assert(s[i + k] == pr[k]);
                assert(pr[k] == f@[k]);
            }
            assert(s[i + fl] == pr[fl]);
            assert(pr[fl] == ':');
            assert forall|m: int| 0 <= m < fp.len() implies s[i + fl + 1 + m] == #[trigger] fp[m]
                by {
                assert(s[i + fl + 1 + m] == pr[fl + 1 + m]);
                assert(pr[fl + 1 + m] == fp[m]);
            }
            assert(s.subrange(i + fl + 1, i + fl + 1 + fp.len()) =~= fp);
            assert(spec_is_field_char(f@[0]));
            lemma_field_char_classes(f@[0]);
            assert(s[i] != '*');
            assert forall|k: int| i <= k < i + fl implies spec_is_field_char(#[trigger] s[k]) by {
                assert(s[k] == f@[k - i]);
            }
            assert(!spec_is_field_char(':')) by {
                assert(((':' as u32) % 256) == 58);
            }
            lemma_field_end_run(s, i, i + fl);
            let e = spec_field_end(s, i);
            assert(e == i + fl);
            assert(e != i);
            assert(e < s.len() && s[e] == ':');
            match *sub {
                Query::And(_) => {
                    assert(fp =~= seq!['('] + spec_print(*sub) + seq![')']);
                    lemma_paren_wrap_at(s, e + 1, *sub);
                    assert(spec_factor(s, e + 1) == Option::Some(
                        (sub.deep(), spec_skip_spaces(s, e2)),
                    ));
                },
                Query::Or(_) => {
                    assert(fp =~= seq!['('] + spec_print(*sub) + seq![')']);
                    lemma_paren_wrap_at(s, e + 1, *sub);
                    assert(spec_factor(s, e + 1) == Option::Some(
                        (sub.deep(), spec_skip_spaces(s, e2)),
                    ));
                },
                Query::Not(_) => {
                    assert(fp =~= seq!['('] + spec_print(*sub) + seq![')']);
                    lemma_paren_wrap_at(s, e + 1, *sub);
                    assert(spec_factor(s, e + 1) == Option::Some(
                        (sub.deep(), spec_skip_spaces(s, e2)),
                    ));
                },
                _ => {
                    assert(fp == spec_print(*sub));
                    lemma_factor_at(s, e + 1, *sub);
                },
            }
            assert(s.subrange(i, e) =~= f@);
            assert(spec_field_text(s, i) == Option::Some(
                (
                    SpecQuery::FieldPattern(f@, Box::new(sub.deep())),
                    spec_skip_spaces(s, e2),
                ),
            ));
            assert(q.deep() == SpecQuery::FieldPattern(f@, Box::new(sub.deep())));
        },
        _ => {
        },
    }
}

proof fn lemma_unquoted_end_run(s: Seq<char>, i: int, e: int)
    requires
        0 <= i <= e <= s.len(),
        forall|k: int| i <= k < e ==> #[trigger] s[k] != '"',
        e == s.len() || s[e] == '"',
    ensures
        spec_unquoted_end(s, i) == e,
    decreases e - i,
{
    if i < e {
        lemma_unquoted_end_run(s, i + 1, e);
    }
}

/// A printable non-list, non-negated query in factor position.
proof fn lemma_factor_at(s: Seq<char>, i: int, q: Query)
    requires
        0 <= i,
        i + spec_print(q).len() <= s.len(),
        s.subrange(i, i + spec_print(q).len()) == spec_print(q),
        spec_elem_stop(s, i + spec_print(q).len()),
        spec_printable(q),
        !(q is And),
        !(q is Or),
        !(q is Not),
    ensures
        spec_factor(s, i) == Option::Some(
            (q.deep(), spec_skip_spaces(s, i + spec_print(q).len())),
        ),
    decreases q, 3int, 0int,
{
    lemma_print_shape(q);
    assert(s[i + 0] == spec_print(q)[0]) by {
        lemma_subrange_chars(s, i, i + spec_print(q).len(), spec_print(q));
    }
    assert(s[i] != '(');
    assert(spec_parens(s, i) is None);
    lemma_query_at(s, i, q);
}

/// A parenthesised printable query: `(` text `)` parses as a grouping and
/// stops at the skip of the closing parenthesis.
proof fn lemma_paren_wrap_at(s: Seq<char>, i: int, q: Query)
    requires
        0 <= i,
        i + spec_print(q).len() + 2 <= s.len(),
        s.subrange(i, i + spec_print(q).len() + 2) == seq!['('] + spec_print(q) + seq![')'],
        spec_printable(q),
    ensures
        spec_parens(s, i) == Option::Some(
            (q.deep(), spec_skip_spaces(s, i + spec_print(q).len() + 2)),
        ),
    decreases q, (if q is Or { 9int } else { 7int }), 0int,
{
    let pr = spec_print(q);
    let w = seq!['('] + pr + seq![')'];
    let close = i + pr.len() + 1;
    lemma_subrange_chars(s, i, i + pr.len() + 2, w);
    assert(w[0] == '(');
    assert(s[i + 0] == w[0]);
    lemma_print_shape(q);
    assert(s[i + 1] == w[1]);
    assert(w[1] == pr[0]);
    assert(spec_skip_spaces(s, i + 1) == i + 1);
    assert forall|m: int| 0 <= m < pr.len() implies s[i + 1 + m] == #[trigger] pr[m] by {
        assert(s[i + 1 + m] == w[1 + m]);
        assert(w[1 + m] == pr[m]);
    }
    assert(s.subrange(i + 1, i + 1 + pr.len()) =~= pr);
    assert(s[close] == w[pr.len() as int + 1]);
    assert(w[pr.len() as int + 1] == ')');
    lemma_expression_at(s, i + 1, q);
    assert(spec_skip_spaces(s, close) == close) by {
        assert(!spec_is_space(')'));
    }
}

/// At an opening parenthesis, none of the negation alternatives applies.
proof fn lemma_notlike_none_at_paren(s: Seq<char>, i: int)
    requires
        0 <= i < s.len(),
        s[i] == '(',
    ensures
        spec_not_factor_worded(s, i) is None,
        spec_not_factor_symbol(s, i) is None,
        spec_not_factor_tight(s, i) is None,
{
    assert(!spec_eq_nocase('(', 'n')) by {
        assert((('(' as u32) + 32) != ('n' as u32));
    }
    lemma_kw_none_at(s, i, seq!['n', 'o', 't']);
    assert(spec_token(s, i, seq!['!']) is None) by {
        if spec_token(s, i, seq!['!']) is Some {
            assert(seq!['!'][0] == '!');
            assert(s[i + 0] == seq!['!'][0]);
            assert(false);
        }
    }
}

/// A printable query in negation-or-factor position: the `and`-element
/// rendering (lists in parentheses, all else bare) parses as a
/// `not`-factor.
#[verifier::spinoff_prover]
#[verifier::rlimit(100)]
proof fn lemma_and_elem_at(s: Seq<char>, i: int, q: Query)
    requires
        0 <= i,
        i + spec_print_and_elem(q).len() <= s.len(),
        s.subrange(i, i + spec_print_and_elem(q).len()) == spec_print_and_elem(q),
        spec_elem_stop(s, i + spec_print_and_elem(q).len()),
        spec_printable(q),
    ensures
        spec_not_factor(s, i) == Option::Some(
            (q.deep(), spec_skip_spaces(s, i + spec_print_and_elem(q).len())),
        ),
    decreases q, 11int, 0int,
{
    let pe = spec_print_and_elem(q);
    let e2 = i + pe.len();
    lemma_subrange_chars(s, i, e2, pe);
    lemma_print_shape(q);
    if q is And || q is Or {
        assert(pe == seq!['('] + spec_print(q) + seq![')']);
        assert(s[i + 0] == pe[0]);
        assert(pe[0] == '(');
        lemma_notlike_none_at_paren(s, i);
        lemma_paren_wrap_at(s, i, q);
        assert(spec_factor(s, i) == spec_parens(s, i));
    } else {
        assert(pe == spec_print(q));
        lemma_not_factor_at(s, i, q);
    }
}

/// A printable non-list query in negation-or-factor position.
#[verifier::spinoff_prover]
#[verifier::rlimit(100)]
proof fn lemma_not_factor_at(s: Seq<char>, i: int, q: Query)
    requires
        0 <= i,
        i + spec_print(q).len() <= s.len(),
        s.subrange(i, i + spec_print(q).len()) == spec_print(q),
        spec_elem_stop(s, i + spec_print(q).len()),
        spec_printable(q),
        !(q is And),
        !(q is Or),
    ensures
        spec_not_factor(s, i) == Option::Some(
            (q.deep(), spec_skip_spaces(s, i + spec_print(q).len())),
        ),
    decreases q, 4int, 0int,
{
    let pr = spec_print(q);
    let e2 = i + pr.len();
    lemma_subrange_chars(s, i, e2, pr);
    lemma_print_shape(q);
    assert(s[i + 0] == pr[0]);
    lemma_worded_none(s, i, q);
    match q {
        Query::Not(sub) => {
            assert(s[i] == '!');
            assert(spec_token(s, i, seq!['!']) == Option::Some(i + 1)) by {
                assert(seq!['!'].len() == 1 && seq!['!'][0] == '!');
            }
            assert(s[i + 1] == pr[1]);
            assert(pr[1] == '(');
            assert(spec_skip_spaces(s, i + 1) == i + 1);
            assert(pr =~= seq!['!'] + (seq!['('] + spec_print(*sub) + seq![')']));
            assert forall|m: int| 0 <= m < pr.len() - 1 implies s[i + 1 + m] == (seq!['(']
                + spec_print(*sub) + seq![')'])[m] by {
                assert(s[i + 1 + m] == pr[1 + m]);
            }
            assert(s.subrange(i + 1, e2) =~= seq!['('] + spec_print(*sub) + seq![')']);
            lemma_paren_wrap_at(s, i + 1, *sub);
            assert(spec_factor(s, i + 1) == Option::Some(
                (sub.deep(), spec_skip_spaces(s, e2)),
            ));
            assert(spec_not_factor_symbol(s, i) == Option::Some(
                (SpecQuery::Not(Box::new(sub.deep())), spec_skip_spaces(s, e2)),
            ));
            assert(q.deep() == SpecQuery::Not(Box::new(sub.deep())));
        },
        _ => {
            lemma_symbol_tight_none(s, i, q);
            lemma_factor_at(s, i, q);
        },
    }
}


/// A separator-and-tail region, shifted past its leading space.
proof fn lemma_shift_past_space(
    s: Seq<char>,
    e0: int,
    sepfull: Seq<char>,
    seppref: Seq<char>,
    tail: Seq<char>,
)
    requires
        0 <= e0,
        e0 + sepfull.len() + tail.len() <= s.len(),
        sepfull == seq![' '] + seppref,
        forall|m: int| 0 <= m < sepfull.len() ==> s[e0 + m] == #[trigger] sepfull[m],
        forall|m: int| 0 <= m < tail.len() ==> s[e0 + sepfull.len() + m] == #[trigger] tail[m],
    ensures
        s.subrange(e0 + 1, e0 + 1 + seppref.len() + tail.len()) == seppref + tail,
{
    assert forall|m: int| 0 <= m < seppref.len() + tail.len() implies #[trigger] s[e0 + 1 + m]
        == (seppref + tail)[m] by {
        if m < seppref.len() {
            assert(s[e0 + 1 + m] == sepfull[1 + m]);
            assert(sepfull[1 + m] == seppref[m]);
        } else {
            assert(s[e0 + 1 + m] == s[e0 + sepfull.len() + (m - seppref.len())]);
            assert(s[e0 + sepfull.len() + (m - seppref.len())] == tail[m - seppref.len()]);
        }
    }
    assert forall|m: int| 0 <= m < seppref.len() + tail.len() implies s.subrange(
        e0 + 1,
        e0 + 1 + seppref.len() + tail.len(),
    )[m] == (seppref + tail)[m] by {
        assert(s.subrange(e0 + 1, e0 + 1 + seppref.len() + tail.len())[m] == s[e0 + 1 + m]);
    }
    assert(s.subrange(e0 + 1, e0 + 1 + seppref.len() + tail.len()) =~= seppref + tail);
}

/// Skipping whitespace over exactly one space.
proof fn lemma_skip_one_space(s: Seq<char>, x: int)
    requires
        0 <= x < s.len(),
        spec_is_space(s[x]),
        x + 1 == s.len() || !spec_is_space(s[x + 1]),
    ensures
        spec_skip_spaces(s, x) == x + 1,
{
    assert(spec_skip_spaces(s, x + 1) == x + 1);
    assert(spec_skip_spaces(s, x) == spec_skip_spaces(s, x + 1));
}

/// Splitting a three-part region into its parts.
proof fn lemma_concat3_chars(s: Seq<char>, base: int, a: Seq<char>, b: Seq<char>, c: Seq<char>)
    requires
        0 <= base,
        base + a.len() + b.len() + c.len() <= s.len(),
        s.subrange(base, base + a.len() + b.len() + c.len()) == a + b + c,
    ensures
        s.subrange(base, base + a.len()) == a,
        s.subrange(base + a.len(), base + a.len() + b.len()) == b,
        s.subrange(base + a.len() + b.len(), base + a.len() + b.len() + c.len()) == c,
        forall|m: int| 0 <= m < a.len() ==> s[base + m] == #[trigger] a[m],
        forall|m: int| 0 <= m < b.len() ==> s[base + a.len() + m] == #[trigger] b[m],
        forall|m: int| 0 <= m < c.len() ==> s[base + a.len() + b.len() + m] == #[trigger] c[m],
{
    let whole = a + b + c;
    lemma_subrange_chars(s, base, base + whole.len(), whole);
    assert forall|m: int| 0 <= m < a.len() implies s[base + m] == #[trigger] a[m] by {
        assert(s[base + m] == whole[m]);
        assert(whole[m] == a[m]);
    }
    assert forall|m: int| 0 <= m < b.len() implies s[base + a.len() + m] == #[trigger] b[m] by {
        assert(s[base + a.len() + m] == whole[a.len() + m]);
        assert(whole[a.len() + m] == b[m]);
    }
    assert forall|m: int| 0 <= m < c.len() implies s[base + a.len() + b.len() + m]
        == #[trigger] c[m] by {
        assert(s[base + a.len() + b.len() + m] == whole[a.len() + b.len() + m]);
        assert(whole[a.len() + b.len() + m] == c[m]);
    }
    assert(s.subrange(base, base + a.len()) =~= a);
    assert(s.subrange(base + a.len(), base + a.len() + b.len()) =~= b);
    assert(s.subrange(base + a.len() + b.len(), base + a.len() + b.len() + c.len()) =~= c);
}

/// The text of an `and` list's remainder, after the space before its
/// next separator has been consumed: `and ` then the rest of the list.
#[verifier::spinoff_prover]
#[verifier::rlimit(100)]
proof fn lemma_and_rest_at(s: Seq<char>, pos: int, cs: Seq<Query>, k: int)
    requires
        1 <= k <= cs.len(),
        spec_printable_from(cs, k),
        k < cs.len() ==> {
            &&& 0 <= pos
            &&& pos + 4 + spec_print_and_list(cs, k).len() <= s.len()
            &&& s.subrange(pos, pos + 4 + spec_print_and_list(cs, k).len()) == seq![
                'a',
                'n',
                'd',
                ' ',
            ] + spec_print_and_list(cs, k)
            &&& spec_term_stop(s, pos + 4 + spec_print_and_list(cs, k).len())
        },
        k == cs.len() ==> 0 <= pos <= s.len() && (pos == s.len() || s[pos] == ')' || (pos + 3
            <= s.len() && s[pos] == 'o' && s[pos + 1] == 'r' && s[pos + 2] == ' ')),
    ensures
        k == cs.len() ==> spec_and_rest(s, pos) == (Seq::<SpecQuery>::empty(), pos),
        k < cs.len() ==> spec_and_rest(s, pos) == (
            spec_deep_seq(cs, k),
            spec_skip_spaces(s, pos + 4 + spec_print_and_list(cs, k).len()),
        ),
    decreases cs, cs.len() - k, 0int,
{
    if k == cs.len() {
        lemma_seps_none(s, pos);
        assert(spec_and_sep(s, pos) is None);
    } else {
        let al = spec_print_and_list(cs, k);
        let sep4 = seq!['a', 'n', 'd', ' '];
        let e_all = pos + 4 + al.len();
        let elem = spec_print_and_elem(cs[k]);
        let ei = pos + 4;
        assert(spec_printable(cs[k]) && spec_printable_from(cs, k + 1)) by {
            assert(spec_printable_from(cs, k));
        }
        lemma_print_shape(cs[k]);
        assert(sep4 + al + Seq::<char>::empty() =~= sep4 + al);
        lemma_concat3_chars(s, pos, sep4, al, Seq::empty());
        assert(sep4[0] == 'a' && sep4[1] == 'n' && sep4[2] == 'd' && sep4[3] == ' ');
        let kw = seq!['a', 'n', 'd'];
        assert(kw[0] == 'a' && kw[1] == 'n' && kw[2] == 'd');
        assert(spec_keyword(s, pos, kw) == Option::Some(pos + 3)) by {
            assert forall|m: int| 0 <= m < kw.len() implies spec_eq_nocase(s[pos + m], kw[m]) by {
                if m == 0 {
                } else if m == 1 {
                } else {
                    assert(m == 2);
                }
            }
        }
        assert(s[pos + 3] == ' ' && spec_is_space(s[pos + 3]));
        assert(s[ei + 0] == al[0] && al[0] == elem[0] && !spec_is_space(elem[0]));
        lemma_skip_one_space(s, pos + 3);
        assert(spec_and_sep(s, pos) == Option::Some(ei));
        let e_elem = ei + elem.len();
        if k == cs.len() - 1 {
            assert(al == elem);
            assert(s.subrange(ei, e_elem) == elem);
            assert(e_elem == e_all);
            assert(spec_elem_stop(s, e_elem));
            lemma_and_elem_at(s, ei, cs[k]);
            let p2 = spec_skip_spaces(s, e_elem);
            lemma_skip_bounds(s, e_elem);
            assert(spec_not_factor(s, ei) == Option::Some((cs[k].deep(), p2)));
            if spec_or_follows(s, e_all) {
                assert(!spec_is_space('o'));
                lemma_skip_one_space(s, e_all);
                assert(p2 == e_all + 1);
                assert(s[p2] == 'o' && s[p2 + 1] == 'r' && s[p2 + 2] == ' ');
            } else {
                assert(p2 == e_all) by {
                    if e_all < s.len() {
                        assert(s[e_all] == ')');
                        assert(!spec_is_space(')'));
                    }
                }
            }
            lemma_and_rest_at(s, p2, cs, k + 1);
            assert(pos < ei <= p2 <= s.len());
            assert(spec_and_rest(s, pos) == (seq![cs[k].deep()], p2));
            assert(spec_deep_seq(cs, k + 1) =~= Seq::<SpecQuery>::empty());
            assert(spec_deep_seq(cs, k) =~= seq![cs[k].deep()]);
        } else {
            let sep5 = seq![' ', 'a', 'n', 'd', ' '];
            let tail = spec_print_and_list(cs, k + 1);
            assert(al == elem + sep5 + tail);
            lemma_concat3_chars(s, ei, elem, sep5, tail);
            assert(sep5[0] == ' ' && sep5[1] == 'a' && sep5[2] == 'n' && sep5[3] == 'd' && sep5[4]
                == ' ');
            assert(s[e_elem] == ' ' && s[e_elem + 1] == 'a' && s[e_elem + 2] == 'n' && s[e_elem
                + 3] == 'd' && s[e_elem + 4] == ' ');
            assert(spec_and_follows(s, e_elem));
            assert(spec_elem_stop(s, e_elem));
            lemma_and_elem_at(s, ei, cs[k]);
            let p2 = spec_skip_spaces(s, e_elem);
            assert(!spec_is_space('a'));
            lemma_skip_one_space(s, e_elem);
            assert(p2 == e_elem + 1);
            assert(spec_not_factor(s, ei) == Option::Some((cs[k].deep(), p2)));
            let tail_len = tail.len() as int;
            assert forall|m: int| 0 <= m < 4 + tail_len implies #[trigger] s[p2 + m] == (sep4
                + tail)[m] by {
                if m < 4 {
                    assert(s[p2 + m] == sep5[1 + m]);
                    assert(sep5[1 + m] == sep4[m]);
                } else {
                    assert(s[p2 + m] == s[e_elem + 5 + (m - 4)]);
                    assert(s[e_elem + 5 + (m - 4)] == tail[m - 4]);
                }
            }
            assert(s.subrange(p2, p2 + 4 + tail_len) =~= sep4 + tail);
            assert(p2 + 4 + tail_len == e_all);
            lemma_and_rest_at(s, p2, cs, k + 1);
            lemma_skip_bounds(s, e_all);
            assert(pos < ei <= p2 <= s.len());
            assert(spec_and_rest(s, pos) == (
                seq![cs[k].deep()] + spec_deep_seq(cs, k + 1),
                spec_skip_spaces(s, e_all),
            ));
            assert(spec_deep_seq(cs, k) =~= seq![cs[k].deep()] + spec_deep_seq(cs, k + 1));
        }
    }
}

/// The head of an `and` list: its first element parses and stops right
/// on the `and` of the first separator, with the rest of the list
/// aligned after it.
#[verifier::spinoff_prover]
#[verifier::rlimit(100)]
proof fn lemma_and_head_at(s: Seq<char>, i: int, cs: Seq<Query>)
    requires
        cs.len() >= 2,
        spec_printable_from(cs, 0),
        0 <= i,
        i + spec_print_and_list(cs, 0).len() <= s.len(),
        s.subrange(i, i + spec_print_and_list(cs, 0).len()) == spec_print_and_list(cs, 0),
        spec_term_stop(s, i + spec_print_and_list(cs, 0).len()),
    ensures
        spec_not_factor(s, i) == Option::Some(
            (cs[0].deep(), i + spec_print_and_elem(cs[0]).len() + 1),
        ),
        s.subrange(
            i + spec_print_and_elem(cs[0]).len() + 1,
            i + spec_print_and_list(cs, 0).len(),
        ) == seq!['a', 'n', 'd', ' '] + spec_print_and_list(cs, 1),
        i + spec_print_and_elem(cs[0]).len() + 1 + 4 + spec_print_and_list(cs, 1).len() == i
            + spec_print_and_list(cs, 0).len(),
    decreases cs, cs.len() + 1, 0int,
{
    let pe = spec_print_and_list(cs, 0);
    let e2 = i + pe.len();
    let elem = spec_print_and_elem(cs[0]);
    let sep5 = seq![' ', 'a', 'n', 'd', ' '];
    let tail = spec_print_and_list(cs, 1);
    assert(pe == elem + sep5 + tail);
    assert(spec_printable(cs[0]) && spec_printable_from(cs, 1)) by {
        assert(spec_printable_from(cs, 0));
    }
    lemma_concat3_chars(s, i, elem, sep5, tail);
    let e0 = i + elem.len();
    assert(sep5[0] == ' ' && sep5[1] == 'a' && sep5[2] == 'n' && sep5[3] == 'd' && sep5[4] == ' ');
    assert(s[e0] == ' ' && s[e0 + 1] == 'a' && s[e0 + 2] == 'n' && s[e0 + 3] == 'd' && s[e0 + 4]
        == ' ');
    assert(spec_and_follows(s, e0));
    assert(spec_elem_stop(s, e0));
    lemma_and_elem_at(s, i, cs[0]);
    let p0 = spec_skip_spaces(s, e0);
    assert(!spec_is_space('a'));
    lemma_skip_one_space(s, e0);
    assert(p0 == e0 + 1);
    let sep4 = seq!['a', 'n', 'd', ' '];
    assert(sep5 =~= seq![' '] + sep4);
    lemma_shift_past_space(s, e0, sep5, sep4, tail);
}

/// An `and` list in term position.
#[verifier::rlimit(100)]
proof fn lemma_term_and_at(s: Seq<char>, i: int, cs: Seq<Query>)
    requires
        cs.len() >= 2,
        spec_printable_from(cs, 0),
        0 <= i,
        i + spec_print_and_list(cs, 0).len() <= s.len(),
        s.subrange(i, i + spec_print_and_list(cs, 0).len()) == spec_print_and_list(cs, 0),
        spec_term_stop(s, i + spec_print_and_list(cs, 0).len()),
    ensures
        spec_term(s, i) == Option::Some(
            (
                SpecQuery::And(spec_deep_seq(cs, 0)),
                spec_skip_spaces(s, i + spec_print_and_list(cs, 0).len()),
            ),
        ),
    decreases cs, cs.len() + 1, 1int,
{
    let pe = spec_print_and_list(cs, 0);
    let e2 = i + pe.len();
    lemma_and_head_at(s, i, cs);
    let p0 = i + spec_print_and_elem(cs[0]).len() + 1;
    assert(spec_printable_from(cs, 1)) by {
        assert(spec_printable_from(cs, 0));
    }
    lemma_and_rest_at(s, p0, cs, 1);
    assert(i <= p0 <= s.len());
    assert(spec_deep_seq(cs, 1).len() >= 1) by {
        assert(spec_deep_seq(cs, 1) =~= seq![cs[1].deep()] + spec_deep_seq(cs, 2));
    }
    assert(spec_term(s, i) == Option::Some(
        (
            SpecQuery::And(seq![cs[0].deep()] + spec_deep_seq(cs, 1)),
            spec_skip_spaces(s, e2),
        ),
    ));
    assert(spec_deep_seq(cs, 0) =~= seq![cs[0].deep()] + spec_deep_seq(cs, 1));
}

#[verifier::spinoff_prover]
#[verifier::rlimit(100)]
proof fn lemma_term_at(s: Seq<char>, i: int, q: Query)
    requires
        0 <= i,
        i + spec_print_or_elem(q).len() <= s.len(),
        s.subrange(i, i + spec_print_or_elem(q).len()) == spec_print_or_elem(q),
        spec_term_stop(s, i + spec_print_or_elem(q).len()),
        spec_printable(q),
    ensures
        spec_term(s, i) == Option::Some(
            (q.deep(), spec_skip_spaces(s, i + spec_print_or_elem(q).len())),
        ),
    decreases q, (if q is Or { 10int } else { 5int }), 0int,
{
    let pe = spec_print_or_elem(q);
    let e2 = i + pe.len();
    lemma_subrange_chars(s, i, e2, pe);
    lemma_print_shape(q);
    lemma_skip_bounds(s, e2);
    let pstar = spec_skip_spaces(s, e2);
    assert((spec_expr_stop(s, e2) && pstar == e2) || (spec_or_follows(s, e2) && pstar == e2 + 1
        && s[pstar] == 'o')) by {
        if spec_or_follows(s, e2) {
            assert(!spec_is_space('o'));
            lemma_skip_one_space(s, e2);
        } else if e2 < s.len() {
            assert(s[e2] == ')');
            assert(!spec_is_space(')'));
        }
    }
    assert(spec_and_sep(s, pstar) is None) by {
        lemma_seps_none(s, pstar);
    }
    match q {
        Query::And(cs) => {
            assert(pe == spec_print_and_list(cs@, 0));
            lemma_term_and_at(s, i, cs@);
            assert(q.deep() == SpecQuery::And(spec_deep_seq(cs@, 0)));
        },
        Query::Or(cs) => {
            // parenthesised inside a term
            assert(pe == seq!['('] + spec_print(q) + seq![')']);
            assert(s[i + 0] == pe[0]);
            assert(pe[0] == '(');
            lemma_notlike_none_at_paren(s, i);
            lemma_paren_wrap_at(s, i, q);
            assert(spec_factor(s, i) == spec_parens(s, i));
            assert(spec_not_factor(s, i) == Option::Some((q.deep(), pstar)));
            assert(spec_and_rest(s, pstar) == (Seq::<SpecQuery>::empty(), pstar));
            assert(i <= pstar <= s.len());
        },
        _ => {
            assert(pe == spec_print(q));
            assert(spec_elem_stop(s, e2));
            lemma_not_factor_at(s, i, q);
            assert(spec_and_rest(s, pstar) == (Seq::<SpecQuery>::empty(), pstar));
            assert(i <= pstar <= s.len());
        },
    }
}

/// The text of an `or` list's remainder, after the space before its next
/// separator has been consumed: `or ` then the rest of the list.
#[verifier::spinoff_prover]
#[verifier::rlimit(100)]
proof fn lemma_or_rest_at(s: Seq<char>, pos: int, cs: Seq<Query>, k: int)
    requires
        1 <= k <= cs.len(),
        spec_printable_from(cs, k),
        k < cs.len() ==> {
            &&& 0 <= pos
            &&& pos + 3 + spec_print_or_list(cs, k).len() <= s.len()
            &&& s.subrange(pos, pos + 3 + spec_print_or_list(cs, k).len()) == seq!['o', 'r', ' ']
                + spec_print_or_list(cs, k)
            &&& spec_expr_stop(s, pos + 3 + spec_print_or_list(cs, k).len())
        },
        k == cs.len() ==> 0 <= pos <= s.len() && (pos == s.len() || s[pos] == ')'),
    ensures
        k == cs.len() ==> spec_or_rest(s, pos) == (Seq::<SpecQuery>::empty(), pos),
        k < cs.len() ==> spec_or_rest(s, pos) == (
            spec_deep_seq(cs, k),
            spec_skip_spaces(s, pos + 3 + spec_print_or_list(cs, k).len()),
        ),
    decreases cs, cs.len() - k, 0int,
{
    if k == cs.len() {
        lemma_seps_none(s, pos);
        assert(spec_or_sep(s, pos) is None);
    } else {
        let ol = spec_print_or_list(cs, k);
        let sep3 = seq!['o', 'r', ' '];
        let e_all = pos + 3 + ol.len();
        let elem = spec_print_or_elem(cs[k]);
        let ei = pos + 3;
        assert(spec_printable(cs[k]) && spec_printable_from(cs, k + 1)) by {
            assert(spec_printable_from(cs, k));
        }
        lemma_print_shape(cs[k]);
        assert(sep3 + ol + Seq::<char>::empty() =~= sep3 + ol);
        lemma_concat3_chars(s, pos, sep3, ol, Seq::empty());
        assert(sep3[0] == 'o' && sep3[1] == 'r' && sep3[2] == ' ');
        let kw = seq!['o', 'r'];
        assert(kw[0] == 'o' && kw[1] == 'r');
        assert(spec_keyword(s, pos, kw) == Option::Some(pos + 2)) by {
            assert forall|m: int| 0 <= m < kw.len() implies spec_eq_nocase(s[pos + m], kw[m]) by {
                if m == 0 {
                } else {
                    assert(m == 1);
                }
            }
        }
        assert(s[pos + 2] == ' ' && spec_is_space(s[pos + 2]));
        assert(s[ei + 0] == ol[0] && ol[0] == elem[0] && !spec_is_space(elem[0]));
        lemma_skip_one_space(s, pos + 2);
        assert(spec_or_sep(s, pos) == Option::Some(ei));
        let e_elem = ei + elem.len();
        if k == cs.len() - 1 {
            assert(ol == elem);
            assert(s.subrange(ei, e_elem) == elem);
            assert(e_elem == e_all);
            assert(spec_term_stop(s, e_elem));
            lemma_term_at(s, ei, cs[k]);
            let p2 = spec_skip_spaces(s, e_elem);
            lemma_skip_bounds(s, e_elem);
            assert(spec_term(s, ei) == Option::Some((cs[k].deep(), p2)));
            assert(p2 == e_all) by {
                if e_all < s.len() {
                    assert(s[e_all] == ')');
                    assert(!spec_is_space(')'));
                }
            }
            lemma_or_rest_at(s, p2, cs, k + 1);
            assert(pos < ei <= p2 <= s.len());
            assert(spec_or_rest(s, pos) == (seq![cs[k].deep()], p2));
            assert(spec_deep_seq(cs, k + 1) =~= Seq::<SpecQuery>::empty());
            assert(spec_deep_seq(cs, k) =~= seq![cs[k].deep()]);
        } else {
            let sep4 = seq![' ', 'o', 'r', ' '];
            let tail = spec_print_or_list(cs, k + 1);
            assert(ol == elem + sep4 + tail);
            lemma_concat3_chars(s, ei, elem, sep4, tail);
            assert(sep4[0] == ' ' && sep4[1] == 'o' && sep4[2] == 'r' && sep4[3] == ' ');
            assert(s[e_elem] == ' ' && s[e_elem + 1] == 'o' && s[e_elem + 2] == 'r' && s[e_elem
                + 3] == ' ');
            assert(spec_or_follows(s, e_elem));
            assert(spec_term_stop(s, e_elem));
            lemma_term_at(s, ei, cs[k]);
            let p2 = spec_skip_spaces(s, e_elem);
            assert(!spec_is_space('o'));
            lemma_skip_one_space(s, e_elem);
            assert(p2 == e_elem + 1);
            assert(spec_term(s, ei) == Option::Some((cs[k].deep(), p2)));
            let tail_len = tail.len() as int;
            assert(sep4 =~= seq![' '] + sep3);
            lemma_shift_past_space(s, e_elem, sep4, sep3, tail);
            assert(p2 + 3 + tail_len == e_all);
            lemma_or_rest_at(s, p2, cs, k + 1);
            lemma_skip_bounds(s, e_all);
            assert(pos < ei <= p2 <= s.len());
            assert(spec_or_rest(s, pos) == (
                seq![cs[k].deep()] + spec_deep_seq(cs, k + 1),
                spec_skip_spaces(s, e_all),
            ));
            assert(spec_deep_seq(cs, k) =~= seq![cs[k].deep()] + spec_deep_seq(cs, k + 1));
        }
    }
}

/// A printable query in expression position, under an expression stop.
/// The head of an `or` list: its first term parses and stops right on
/// the `or` of the first separator, with the rest of the list aligned
/// after it.
#[verifier::spinoff_prover]
#[verifier::rlimit(100)]
proof fn lemma_or_head_at(s: Seq<char>, i: int, cs: Seq<Query>)
    requires
        cs.len() >= 2,
        spec_printable_from(cs, 0),
        0 <= i,
        i + spec_print_or_list(cs, 0).len() <= s.len(),
        s.subrange(i, i + spec_print_or_list(cs, 0).len()) == spec_print_or_list(cs, 0),
        spec_expr_stop(s, i + spec_print_or_list(cs, 0).len()),
    ensures
        spec_term(s, i) == Option::Some(
            (cs[0].deep(), i + spec_print_or_elem(cs[0]).len() + 1),
        ),
        s.subrange(
            i + spec_print_or_elem(cs[0]).len() + 1,
            i + spec_print_or_list(cs, 0).len(),
        ) == seq!['o', 'r', ' '] + spec_print_or_list(cs, 1),
        i + spec_print_or_elem(cs[0]).len() + 1 + 3 + spec_print_or_list(cs, 1).len() == i
            + spec_print_or_list(cs, 0).len(),
    decreases cs, cs.len() + 1, 0int,
{
    let pr = spec_print_or_list(cs, 0);
    let e2 = i + pr.len();
    let elem = spec_print_or_elem(cs[0]);
    let sep4 = seq![' ', 'o', 'r', ' '];
    let tail = spec_print_or_list(cs, 1);
    assert(pr == elem + sep4 + tail);
    assert(spec_printable(cs[0]) && spec_printable_from(cs, 1)) by {
        assert(spec_printable_from(cs, 0));
    }
    lemma_concat3_chars(s, i, elem, sep4, tail);
    let e0 = i + elem.len();
    assert(sep4[0] == ' ' && sep4[1] == 'o' && sep4[2] == 'r' && sep4[3] == ' ');
    assert(s[e0] == ' ' && s[e0 + 1] == 'o' && s[e0 + 2] == 'r' && s[e0 + 3] == ' ');
    assert(spec_or_follows(s, e0));
    assert(spec_term_stop(s, e0));
    lemma_term_at(s, i, cs[0]);
    let p0 = spec_skip_spaces(s, e0);
    assert(!spec_is_space('o'));
    lemma_skip_one_space(s, e0);
    assert(p0 == e0 + 1);
    let sep3 = seq!['o', 'r', ' '];
    assert(sep4 =~= seq![' '] + sep3);
    lemma_shift_past_space(s, e0, sep4, sep3, tail);
}

/// An `or` list in expression position.
#[verifier::rlimit(100)]
proof fn lemma_expr_or_at(s: Seq<char>, i: int, cs: Seq<Query>)
    requires
        cs.len() >= 2,
        spec_printable_from(cs, 0),
        0 <= i,
        i + spec_print_or_list(cs, 0).len() <= s.len(),
        s.subrange(i, i + spec_print_or_list(cs, 0).len()) == spec_print_or_list(cs, 0),
        spec_expr_stop(s, i + spec_print_or_list(cs, 0).len()),
    ensures
        spec_or(s, i) == Option::Some(
            (
                SpecQuery::Or(spec_deep_seq(cs, 0)),
                spec_skip_spaces(s, i + spec_print_or_list(cs, 0).len()),
            ),
        ),
    decreases cs, cs.len() + 1, 1int,
{
    let pr = spec_print_or_list(cs, 0);
    let e2 = i + pr.len();
    lemma_or_head_at(s, i, cs);
    let p0 = i + spec_print_or_elem(cs[0]).len() + 1;
    assert(spec_printable_from(cs, 1)) by {
        assert(spec_printable_from(cs, 0));
    }
    lemma_or_rest_at(s, p0, cs, 1);
    assert(i <= p0 <= s.len());
    assert(spec_deep_seq(cs, 1).len() >= 1) by {
        assert(spec_deep_seq(cs, 1) =~= seq![cs[1].deep()] + spec_deep_seq(cs, 2));
    }
    assert(spec_or(s, i) == Option::Some(
        (
            SpecQuery::Or(seq![cs[0].deep()] + spec_deep_seq(cs, 1)),
            spec_skip_spaces(s, e2),
        ),
    ));
    assert(spec_deep_seq(cs, 0) =~= seq![cs[0].deep()] + spec_deep_seq(cs, 1));
}

/// A printable query in expression position, under an expression stop.
#[verifier::spinoff_prover]
#[verifier::rlimit(100)]
proof fn lemma_expression_at(s: Seq<char>, i: int, q: Query)
    requires
        0 <= i,
        i + spec_print(q).len() <= s.len(),
        s.subrange(i, i + spec_print(q).len()) == spec_print(q),
        spec_expr_stop(s, i + spec_print(q).len()),
        spec_printable(q),
    ensures
        spec_expression(s, i) == Option::Some(
            (q.deep(), spec_skip_spaces(s, i + spec_print(q).len())),
        ),
    decreases q, (if q is Or { 8int } else { 6int }), 0int,
{
    let pr = spec_print(q);
    let e2 = i + pr.len();
    lemma_subrange_chars(s, i, e2, pr);
    lemma_skip_bounds(s, e2);
    let pstar = spec_skip_spaces(s, e2);
    assert(pstar == e2) by {
        if e2 < s.len() {
            assert(s[e2] == ')');
            assert(!spec_is_space(')'));
        }
    }
    match q {
        Query::Or(cs) => {
            assert(pr == spec_print_or_list(cs@, 0));
            lemma_expr_or_at(s, i, cs@);
            assert(q.deep() == SpecQuery::Or(spec_deep_seq(cs@, 0)));
        },
        _ => {
            lemma_print_shape(q);
            assert(spec_print_or_elem(q) == pr);
            assert(spec_term_stop(s, e2));
            lemma_term_at(s, i, q);
            assert(spec_or_rest(s, pstar) == (Seq::<SpecQuery>::empty(), pstar)) by {
                lemma_seps_none(s, pstar);
            }
            assert(i <= pstar <= s.len());
        },
    }
}

/// Parser idempotence: the canonical text of any printable query — and
/// every parsed query is printable — parses back to exactly that query,
/// with no input left over.
pub proof fn lemma_print_parse_roundtrip(q: Query)
    requires
        spec_printable(q),
    ensures
        spec_expression(spec_print(q), 0) == Option::Some(
            (q.deep(), spec_print(q).len() as int),
        ),
{
    let s = spec_print(q);
    assert(s.subrange(0, s.len() as int) =~= s);
    lemma_expression_at(s, 0, q);
    assert(spec_skip_spaces(s, s.len() as int) == s.len());
}

} // verus!
