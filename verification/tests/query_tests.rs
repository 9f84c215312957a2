use funtonic::meta::{ExecutorMeta, QueryMatcher, Tag, TagMap};
use funtonic::parser::{parse, QueryParseError};
use funtonic::query::{MatchResult, Query};
use funtonic::query::MatchResult::{Match, NoMatch, Rejected};
use funtonic::printer::to_query_string;

fn pat(s: &str) -> Query {
    Query::Pattern(s.to_string())
}

fn field(name: &str, sub: Query) -> Query {
    Query::FieldPattern(name.to_string(), Box::new(sub))
}

fn tag_map(pairs: &[(&str, Tag)]) -> TagMap {
    let mut m = TagMap::new();
    for (k, v) in pairs {
        m.insert(k.to_string(), clone_tag(v));
    }
    m
}

fn clone_tag(t: &Tag) -> Tag {
    match t {
        Tag::Value(v) => Tag::Value(v.clone()),
        Tag::List(l) => Tag::List(l.iter().map(clone_tag).collect()),
        Tag::Dict(m) => {
            let mut c = TagMap::new();
            for (k, v) in &m.entries {
                c.insert(k.clone(), clone_tag(v));
            }
            Tag::Dict(c)
        }
    }
}

fn qm(value: &Tag, query: &str) -> MatchResult {
    value.qmatches(&parse(query).unwrap())
}

fn s_matches(s: &str, query: &str) -> MatchResult {
    s.to_string().qmatches(&parse(query).unwrap())
}

fn siderant_meta() -> ExecutorMeta {
    let os = tag_map(&[
        ("type", Tag::Value("Linux".to_string())),
        ("sub_type", Tag::Value("Ubuntu".to_string())),
        ("version", Tag::Value("18.04".to_string())),
    ]);
    let tags = tag_map(&[
        ("env", Tag::Value("prod".to_string())),
        (
            "roles",
            Tag::List(vec![
                Tag::Value("foo".to_string()),
                Tag::Value("bar".to_string()),
            ]),
        ),
        ("os", Tag::Dict(os)),
    ]);
    ExecutorMeta::new("siderant".to_string(), "0.0.1".to_string(), tags)
}

#[test]
fn tag_match() {
    let coucou = Tag::Value("coucou".into());
    assert!(coucou.matches("coucou"));
    assert!(!coucou.matches("foo"));
    assert!(coucou.matches("*"));

    let foo_bar = Tag::List(vec![Tag::Value("foo".into()), Tag::Value("bar".into())]);
    assert!(foo_bar.matches("*"));
    assert!(foo_bar.matches("foo"));
    assert!(foo_bar.matches("bar"));
    assert!(!foo_bar.matches("fooo"));

    let maap = Tag::Dict(tag_map(&[
        ("key1", Tag::Value("value1".to_string())),
        ("key2", Tag::Value("value2".to_string())),
    ]));
    assert!(maap.matches("*"));
    assert!(maap.matches("value1"));
    assert!(maap.matches("value2"));
    assert!(!maap.matches("value3"));
    assert!(maap.matches("key1:value1"));
    assert!(!maap.matches("key1:value2"));
    assert!(maap.matches("key1:*"));
}

#[test]
fn executor_meta_tag_match() {
    let coucou = Tag::Value("coucou".into());
    assert!(qm(&coucou, "coucou").matches());
    assert!(!qm(&coucou, "foo").matches());
    assert!(qm(&coucou, "*").matches());

    let foo_bar = Tag::List(vec![Tag::Value("foo".into()), Tag::Value("bar".into())]);
    assert!(qm(&foo_bar, "*").matches());
    assert!(qm(&foo_bar, "foo").matches());
    assert!(qm(&foo_bar, "bar").matches());
    assert!(!qm(&foo_bar, "fooo").matches());

    let maap = Tag::Dict(tag_map(&[
        ("key1", Tag::Value("value1".to_string())),
        ("key2", Tag::Value("value2".to_string())),
    ]));
    assert!(qm(&maap, "*").matches());
    assert!(qm(&maap, "key1:value1").matches());
    assert!(qm(&maap, "key2:value2").matches());
    assert!(!qm(&maap, "value3").matches());
    assert!(!qm(&maap, "key1:value2").matches());
    assert!(qm(&maap, "key1:*").matches());
}

#[test]
fn lib_test_matches() {
    assert_eq!(s_matches("prod", "prod"), Match);
    assert_eq!(s_matches("prod", "*"), Match);
    assert_eq!(s_matches("prod", "prod or qa"), Match);
    assert_eq!(s_matches("qa", "prod or qa"), Match);
    assert_eq!(s_matches("qa", "prod and fuck or qa"), Match);
    assert_eq!(s_matches("qa", "prod or fuck or qa"), Match);
    assert_eq!(s_matches("qa", "qa or fuck and qa"), Match);

    assert_eq!(s_matches("qa", "prod"), NoMatch);
    assert_eq!(s_matches("qa", "prod and qa"), NoMatch);
    assert_eq!(s_matches("qa", "prod and qa or coucou"), NoMatch);
    assert_eq!(s_matches("qa", "coucou or prod and qa or coucou"), NoMatch);

    assert_eq!(s_matches("qa", "not qa"), Rejected);
    assert_eq!(s_matches("qa", "!qa"), Rejected);
    assert_eq!(s_matches("prod", "not qa"), Match);
    assert_eq!(s_matches("prod", "!qa"), Match);
    assert_eq!(s_matches("qa", "not  qa"), Rejected);
    assert_eq!(s_matches("qa", "! qa"), Rejected);
    assert_eq!(s_matches("prod", "not  qa"), Match);
    assert_eq!(s_matches("prod", "! qa"), Match);

    let tags = tag_map(&[
        ("env", Tag::Value("prod".to_string())),
        ("location", Tag::Value("Paris".to_string())),
    ]);
    assert_eq!(tags.qmatches(&parse("prod").unwrap()), NoMatch);
    assert_eq!(tags.qmatches(&parse("env").unwrap()), NoMatch);
    assert_eq!(tags.qmatches(&parse("*").unwrap()), Match);
    assert_eq!(tags.qmatches(&parse("env:prod").unwrap()), Match);
    assert_eq!(tags.qmatches(&parse("env:*").unwrap()), Match);
    assert_eq!(tags.qmatches(&parse("env:qa or *").unwrap()), Match);
    assert_eq!(
        tags.qmatches(&parse("env:prod or location:anywhere").unwrap()),
        Match
    );
    assert_eq!(
        tags.qmatches(&parse("env:qa or location:Paris").unwrap()),
        Match
    );

    let empty: Vec<Tag> = vec![];
    assert_eq!(empty.qmatches(&parse("foo").unwrap()), NoMatch);
    assert_eq!(empty.qmatches(&parse("*").unwrap()), Match);
    let non_empty = vec![
        Tag::Value("foo".to_string()),
        Tag::Value("bar".to_string()),
        Tag::Value("prod".to_string()),
    ];
    assert_eq!(non_empty.qmatches(&parse("*").unwrap()), Match);
    assert_eq!(non_empty.qmatches(&parse("foo").unwrap()), Match);
    assert_eq!(non_empty.qmatches(&parse("bar").unwrap()), Match);
    assert_eq!(non_empty.qmatches(&parse("prod").unwrap()), Match);
    assert_eq!(non_empty.qmatches(&parse("!prod").unwrap()), Rejected);
    assert_eq!(
        non_empty.qmatches(&parse("prod and bar and foo").unwrap()),
        Match
    );
    assert_eq!(non_empty.qmatches(&parse("prod and foo").unwrap()), Match);
    assert_eq!(
        non_empty.qmatches(&parse("prod or field:bar and foo").unwrap()),
        Match
    );
    assert_eq!(non_empty.qmatches(&parse("prod and !prod").unwrap()), Rejected);
    assert_eq!(non_empty.qmatches(&parse("prod or !prod").unwrap()), Match);
}

#[test]
fn parser_test() {
    assert!(parse("").is_err());
    assert_eq!(parse("*").unwrap(), Query::Wildcard);
    assert_eq!(
        parse("coucou_les-amis1234").unwrap(),
        pat("coucou_les-amis1234")
    );
    assert_eq!(parse("field:pattern").unwrap(), field("field", pat("pattern")));
    assert_eq!(parse("field:*").unwrap(), field("field", Query::Wildcard));
    assert_eq!(
        parse("field:sub_field:pattern").unwrap(),
        field("field", field("sub_field", pat("pattern")))
    );
    assert_eq!(
        parse("field:sub_field:*").unwrap(),
        field("field", field("sub_field", Query::Wildcard))
    );
    assert_eq!(
        parse("foo and bar").unwrap(),
        Query::And(vec![pat("foo"), pat("bar")])
    );
    assert_eq!(
        parse("foo or bar").unwrap(),
        Query::Or(vec![pat("foo"), pat("bar")])
    );
    assert_eq!(
        parse("foo , bar").unwrap(),
        Query::Or(vec![pat("foo"), pat("bar")])
    );
    assert_eq!(
        parse("foo,bar").unwrap(),
        Query::Or(vec![pat("foo"), pat("bar")])
    );
    assert_eq!(
        parse("foo, bar").unwrap(),
        Query::Or(vec![pat("foo"), pat("bar")])
    );
    assert_eq!(
        parse("w1.prod, w2.prod").unwrap(),
        Query::Or(vec![pat("w1.prod"), pat("w2.prod")])
    );
    assert_eq!(
        parse("foo ,bar").unwrap(),
        Query::Or(vec![pat("foo"), pat("bar")])
    );
    assert_eq!(
        parse("foo and bar and yak").unwrap(),
        Query::And(vec![pat("foo"), pat("bar"), pat("yak")])
    );
    assert_eq!(
        parse("foo or bar or yak").unwrap(),
        Query::Or(vec![pat("foo"), pat("bar"), pat("yak")])
    );
}

#[test]
fn test_not() {
    let not_foobar = Query::Not(Box::new(pat("foobar")));
    assert_eq!(parse("not foobar").unwrap(), not_foobar);
    assert_eq!(parse("!foobar").unwrap(), Query::Not(Box::new(pat("foobar"))));
    let not_field = Query::Not(Box::new(field("foobar", pat("baz"))));
    assert_eq!(parse("not foobar:baz").unwrap(), not_field);
    assert_eq!(parse("!foobar:baz").unwrap(), Query::Not(Box::new(field("foobar", pat("baz")))));
    assert_eq!(parse("not(foobar:baz)").unwrap(), Query::Not(Box::new(field("foobar", pat("baz")))));
    assert_eq!(parse("!(foobar:baz)").unwrap(), Query::Not(Box::new(field("foobar", pat("baz")))));
    assert_eq!(parse("not (foobar:baz)").unwrap(), Query::Not(Box::new(field("foobar", pat("baz")))));
    assert_eq!(parse("! (foobar:baz)").unwrap(), Query::Not(Box::new(field("foobar", pat("baz")))));
    assert_eq!(parse("not( foobar:baz)").unwrap(), Query::Not(Box::new(field("foobar", pat("baz")))));
    assert_eq!(parse("!( foobar:baz)").unwrap(), Query::Not(Box::new(field("foobar", pat("baz")))));
    assert_eq!(parse("not(foobar:baz )").unwrap(), Query::Not(Box::new(field("foobar", pat("baz")))));
    assert_eq!(parse("!(foobar:baz )").unwrap(), Query::Not(Box::new(field("foobar", pat("baz")))));
}

#[test]
fn test_precedence() {
    assert_eq!(
        parse("env:qa or location:paris").unwrap(),
        Query::Or(vec![field("env", pat("qa")), field("location", pat("paris"))])
    );
    assert_eq!(
        parse("foo or bar and baz").unwrap(),
        Query::Or(vec![pat("foo"), Query::And(vec![pat("bar"), pat("baz")])])
    );
    assert_eq!(
        parse("foo and bar or baz").unwrap(),
        Query::Or(vec![Query::And(vec![pat("foo"), pat("bar")]), pat("baz")])
    );
}

#[test]
fn executor_meta_meta_match() {
    let meta = siderant_meta();
    let m = |q: &str| meta.qmatches(&parse(q).unwrap()).matches();

    assert!(m("*"));
    assert!(m("siderant"));
    assert!(!m("prod"));
    assert!(m("env:*"));
    assert!(m("env:prod"));
    assert!(!m("env:dev"));
    assert!(m("roles:*"));
    assert!(m("roles:foo"));
    assert!(m("roles:bar"));
    assert!(!m("non_existing:bar"));
    assert!(!m("non_existing:*"));

    assert!(m("os:*"));
    assert!(m("os:type:Linux"));
    assert!(m("os:type:*"));
    assert!(m("os:version:18.04"));
    assert!(!m("os:type:Windows"));

    assert!(m("env:prod and siderant"));
    assert!(!m("env:prod and !siderant"));
}

#[test]
fn meta_match() {
    let meta = siderant_meta();

    assert!(meta.matches("*"));
    assert!(meta.matches("siderant"));
    assert!(!meta.matches("prod"));
    assert!(meta.matches("env:*"));
    assert!(!meta.matches("env:"));
    assert!(meta.matches("env:prod"));
    assert!(!meta.matches("env:dev"));
    assert!(!meta.matches("roles:"));
    assert!(meta.matches("roles:*"));
    assert!(meta.matches("roles:foo"));
    assert!(meta.matches("roles:bar"));
    assert!(!meta.matches("non_existing:bar"));
    assert!(!meta.matches("non_existing:*"));

    assert!(meta.matches("os:*"));
    assert!(meta.matches("os:Linux"));
    assert!(meta.matches("os:type:Linux"));
    assert!(meta.matches("os:type:*"));
    assert!(meta.matches("os:version:18.04"));
    assert!(!meta.matches("os:type:Windows"));
}

#[test]
fn empty_predicate_is_a_parse_error() {
    match parse("") {
        Err(QueryParseError::ParseError(_)) => {}
        other => panic!("expected a parse error, got {:?}", other),
    }
}

#[test]
fn leftover_input_is_reported() {
    match parse("*abc") {
        Err(QueryParseError::UnrecognizedInput(rest)) => assert_eq!(rest, "abc"),
        other => panic!("expected unrecognized input, got {:?}", other),
    }
}

#[test]
fn quoted_patterns_parse() {
    assert_eq!(parse("\"hello world\"").unwrap(), pat("hello world"));
    assert_eq!(
        parse("env:\"with space\"").unwrap(),
        field("env", pat("with space"))
    );
}

#[test]
fn keywords_are_case_insensitive() {
    assert_eq!(
        parse("foo AND bar").unwrap(),
        Query::And(vec![pat("foo"), pat("bar")])
    );
    assert_eq!(
        parse("foo OR bar").unwrap(),
        Query::Or(vec![pat("foo"), pat("bar")])
    );
    assert_eq!(
        parse("NOT foo").unwrap(),
        Query::Not(Box::new(pat("foo")))
    );
}

#[test]
fn predicate_table_of_the_design() {
    let meta = siderant_meta();
    let r = |q: &str| meta.qmatches(&parse(q).unwrap());
    assert_eq!(r("*"), Match);
    assert_eq!(r("siderant"), Match);
    assert_eq!(r("prod"), NoMatch);
    assert_eq!(r("env:prod"), Match);
    assert_eq!(r("env:dev"), NoMatch);
    assert_eq!(r("roles:foo"), Match);
    assert_eq!(r("os:type:Linux"), Match);
    assert_eq!(r("os:type:Windows"), NoMatch);
    assert_eq!(r("env:prod and siderant"), Match);
    assert_eq!(r("env:prod and !siderant"), Rejected);
}

#[test]
fn query_parser_test_matches() {
    let b = |s: &str, q: &str| s_matches(s, q).matches();
    assert!(b("prod", "prod"));
    assert!(b("prod", "*"));
    assert!(b("prod", "prod or qa"));
    assert!(b("qa", "prod or qa"));
    assert!(b("qa", "prod and fuck or qa"));
    assert!(b("qa", "prod or fuck or qa"));
    assert!(b("qa", "qa or fuck and qa"));

    assert!(!b("qa", "prod"));
    assert!(!b("qa", "prod and qa"));
    assert!(!b("qa", "prod and qa or coucou"));
    assert!(!b("qa", "coucou or prod and qa or coucou"));

    let tags = tag_map(&[
        ("env", Tag::Value("prod".to_string())),
        ("location", Tag::Value("Paris".to_string())),
    ]);
    let tm = |q: &str| tags.qmatches(&parse(q).unwrap()).matches();
    assert!(!tm("prod"));
    assert!(!tm("env"));
    assert!(tm("*"));
    assert!(tm("env:prod"));
    assert!(tm("env:*"));
    assert!(tm("env:qa or *"));
    assert!(tm("env:prod or location:anywhere"));
    assert!(tm("env:qa or location:Paris"));

    let empty: Vec<Tag> = vec![];
    assert!(!empty.qmatches(&parse("foo").unwrap()).matches());
    assert!(empty.qmatches(&parse("*").unwrap()).matches());
    let non_empty = vec![
        Tag::Value("foo".to_string()),
        Tag::Value("bar".to_string()),
        Tag::Value("prod".to_string()),
    ];
    let ne = |q: &str| non_empty.qmatches(&parse(q).unwrap()).matches();
    assert!(ne("*"));
    assert!(ne("foo"));
    assert!(ne("bar"));
    assert!(ne("prod"));
    assert!(ne("prod and bar and foo"));
    assert!(ne("prod and foo"));
    assert!(ne("prod or field:bar and foo"));
}

#[test]
fn canonical_text_of_queries() {
    let q = |s: &str| parse(s).unwrap();
    assert_eq!(to_query_string(&q("env:prod")), "env:prod");
    assert_eq!(to_query_string(&q("*")), "*");
    assert_eq!(to_query_string(&q("os:type:Linux")), "os:type:Linux");
    assert_eq!(to_query_string(&q("a and b or c")), "a and b or c");
    assert_eq!(to_query_string(&q("a or b and c")), "a or b and c");
    assert_eq!(to_query_string(&q("not foo")), "!(foo)");
    assert_eq!(to_query_string(&q("env:(a and b)")), "env:(a and b)");
    assert_eq!(to_query_string(&q("(a or b) and c")), "(a or b) and c");
}

#[test]
fn reparsing_the_canonical_text_is_idempotent() {
    let inputs = [
        "prod",
        "*",
        "env:prod",
        "os:type:Linux",
        "env:*",
        "a and b",
        "a or b",
        "a, b , c",
        "a && b || c",
        "not foo",
        "!foo",
        "not (a and b)",
        "a and !b or c",
        "env:prod and !siderant",
        "(a or b) and c",
        "f:(a or b)",
        "not(f:x)",
        "\"quoted text\"",
        "a and not b and c",
        "w1.prod, w2.prod",
    ];
    for input in inputs {
        let first = parse(input).unwrap();
        let printed = to_query_string(&first);
        let second = parse(&printed)
            .unwrap_or_else(|e| panic!("canonical text {printed:?} of {input:?} fails: {e:?}"));
        assert_eq!(second, first, "canonical text {printed:?} of {input:?}");
    }
}

#[test]
fn words_keep_to_the_lexicon() {
    // a word is a run of alphanumerics and `-_@#.`; anything else must be quoted
    assert!(parse("a-b_c@d#e.f123").is_ok());
    match parse("a!b") {
        Err(QueryParseError::UnrecognizedInput(rest)) => assert_eq!(rest, "!b"),
        other => panic!("expected a lexicon refusal, got {:?}", other),
    }
    assert!(parse("\"a!b\"").is_ok());
    assert_eq!(parse("\"a!b\"").unwrap(), pat("a!b"));
}

#[test]
fn canonical_text_quotes_awkward_patterns() {
    // a pattern that reads as a keyword, or holds characters outside the
    // word lexicon, is re-rendered quoted and still parses back
    for source in ["\"not\"", "\"a b\"", "\"x!y\"", "not x", "\"and\" or \"or\""] {
        let first = parse(source).unwrap();
        let printed = to_query_string(&first);
        assert_eq!(parse(&printed).unwrap(), first, "canonical text {printed:?}");
    }
}
