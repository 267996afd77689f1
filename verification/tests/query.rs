use sq::map::SortedMap;
use sq::prefixes::base_map;
use sq::query::{
    about_q, any_q, classes_q, count_q, desc_q, destructive, expand_term, graphs_q,
    parse_u64, preds_q, query_kind, Kind,
};

#[test]
fn kind_of_reads() {
    assert_eq!(query_kind("SELECT ?s WHERE { ?s ?p ?o }"), Kind::Select);
    assert_eq!(query_kind("select ?s where { ?s ?p ?o }"), Kind::Select);
    assert_eq!(query_kind("ASK { ?s ?p ?o }"), Kind::Ask);
    assert_eq!(query_kind("CONSTRUCT { ?s ?p ?o } WHERE { ?s ?p ?o }"), Kind::Graph);
    assert_eq!(query_kind("describe <urn:x>"), Kind::Graph);
}

#[test]
fn kind_of_updates() {
    for q in ["INSERT DATA { <a> <b> <c> }", "DELETE WHERE { ?s ?p ?o }", "load <http://x>", "CLEAR GRAPH <g>",
        "DROP ALL", "CREATE GRAPH <g>", "ADD <a> TO <b>", "MOVE <a> TO <b>", "COPY <a> TO <b>", "WITH <g> DELETE { ?s ?p ?o } WHERE { ?s ?p ?o }"] {
        assert_eq!(query_kind(q), Kind::Update, "{q}");
    }
}

#[test]
fn kind_skips_declarations_comments_and_blank_lines() {
    let q = "PREFIX ex: <http://ex.org/>\n\n  # a comment\nBASE <http://b/>\r\n  \tSELECT * WHERE { ?s ?p ?o }";
    assert_eq!(query_kind(q), Kind::Select);
    assert_eq!(query_kind("prefix ex: <x>\ninsert data { }"), Kind::Update);
}

#[test]
fn kind_after_a_declaration_on_the_same_line() {
    assert_eq!(query_kind("PREFIX ex: <http://ex/> SELECT * WHERE { ?s ?p ?o }"), Kind::Select);
    assert_eq!(query_kind("BASE <http://b/> PREFIX ex: <http://ex/> ASK { ?s ?p ?o }"), Kind::Ask);
    assert_eq!(query_kind("PREFIX ex: <http://ex/> # note\nINSERT DATA { }"), Kind::Update);
    assert_eq!(query_kind("PREFIX ex: <http://ex/ SELECT *"), Kind::Unknown);
}

#[test]
fn kind_after_a_declaration_without_a_closing_bracket() {
    assert_eq!(query_kind("PREFIX ex: x\nINSERT DATA { <urn:a> <urn:b> <urn:c> }"), Kind::Update);
    assert_eq!(query_kind("BASE x\n\nSELECT * WHERE { ?s ?p <urn:o> }"), Kind::Select);
    assert_eq!(query_kind("PREFIX ex:\n  <http://ex/>\nCONSTRUCT { } WHERE { }"), Kind::Unknown);
}

#[test]
fn kind_unknown() {
    assert_eq!(query_kind(""), Kind::Unknown);
    assert_eq!(query_kind("\n\n# only comments\n"), Kind::Unknown);
    assert_eq!(query_kind("PREFIX a: <b>"), Kind::Unknown);
    assert_eq!(query_kind("hello world"), Kind::Unknown);
    assert_eq!(query_kind("SELECTED"), Kind::Unknown);
}

#[test]
fn guard_refuses_named_operations() {
    assert_eq!(destructive("DROP ALL").as_deref(), Some("DROP ALL"));
    assert_eq!(destructive("drop\n  all ").as_deref(), Some("DROP ALL"));
    assert_eq!(destructive("CLEAR ALL").as_deref(), Some("CLEAR ALL"));
    assert_eq!(destructive("DROP DEFAULT").as_deref(), Some("DROP DEFAULT"));
    assert_eq!(destructive("clear default").as_deref(), Some("CLEAR DEFAULT"));
}

#[test]
fn guard_refuses_unbounded_delete_where() {
    assert_eq!(destructive("DELETE WHERE { ?s ?p ?o }").as_deref(), Some("unbounded DELETE WHERE"));
    assert_eq!(destructive("delete   where {?s ?p ?o .}").as_deref(), Some("unbounded DELETE WHERE"));
    assert_eq!(destructive("DELETE WHERE { ?s ?p ?o . ?a ?b ?c }").as_deref(), Some("unbounded DELETE WHERE"));
}

#[test]
fn guard_lets_bounded_updates_through() {
    assert_eq!(destructive("DELETE WHERE { <urn:a> ?p ?o }"), None);
    assert_eq!(destructive("DELETE WHERE { }"), None);
    assert_eq!(destructive("DELETE WHERE { . }"), None);
    assert_eq!(destructive("INSERT DATA { GRAPH <urn:g> { <urn:a> <urn:p> \"x\" } }"), None);
    assert_eq!(destructive("DROP GRAPH <urn:g>"), None);
}

#[test]
fn guard_reads_the_pattern_to_its_own_closing_brace() {
    assert_eq!(
        destructive("DELETE WHERE { ?s ?p ?o } ; INSERT DATA { <urn:a> <urn:p> <urn:b> }").as_deref(),
        Some("unbounded DELETE WHERE")
    );
    assert_eq!(destructive("DELETE WHERE { GRAPH ?g { ?s ?p ?o } }"), None);
    assert_eq!(
        destructive("DELETE WHERE { <urn:a> ?p ?o } ; DELETE WHERE { ?s ?p ?o }").as_deref(),
        Some("unbounded DELETE WHERE")
    );
    assert_eq!(destructive("DELETE WHERE { <urn:a> ?p ?o } ; DELETE WHERE { <urn:b> ?p ?o }"), None);
    assert_eq!(destructive("DELETE WHERE } {"), None);
    assert_eq!(destructive("DELETE WHERE { ?s ?p ?o"), None);
}

#[test]
fn numbers_parse_like_std() {
    assert_eq!(parse_u64("42"), Some(42));
    assert_eq!(parse_u64("+7"), Some(7));
    assert_eq!(parse_u64("007"), Some(7));
    assert_eq!(parse_u64("+"), None);
    assert_eq!(parse_u64("-1"), None);
    assert_eq!(parse_u64(""), None);
    assert_eq!(parse_u64("1 "), None);
    assert_eq!(parse_u64("18446744073709551615"), Some(u64::MAX));
    assert_eq!(parse_u64("18446744073709551616"), None);
    for s in ["0", "12", "+3", "x", "99999999999999999999", "++1"] {
        assert_eq!(parse_u64(s), s.parse::<u64>().ok(), "{s}");
    }
}

#[test]
fn any_query_limits() {
    assert_eq!(any_q(None), "SELECT * WHERE { ?s ?p ?o } LIMIT 20");
    assert_eq!(any_q(Some("5")), "SELECT * WHERE { ?s ?p ?o } LIMIT 5");
    assert_eq!(any_q(Some("+05")), "SELECT * WHERE { ?s ?p ?o } LIMIT 5");
    assert_eq!(any_q(Some("abc")), "SELECT * WHERE { ?s ?p ?o } LIMIT 20");
    assert_eq!(any_q(Some("18446744073709551615")), "SELECT * WHERE { ?s ?p ?o } LIMIT 18446744073709551615");
}

#[test]
fn fixed_builtins() {
    assert_eq!(
        graphs_q(),
        "SELECT ?graph (COUNT(*) AS ?triples) WHERE { GRAPH ?graph { ?s ?p ?o } } GROUP BY ?graph ORDER BY DESC(?triples)"
    );
    assert_eq!(
        classes_q(),
        "SELECT ?class (COUNT(?s) AS ?n) WHERE { ?s a ?class } GROUP BY ?class ORDER BY DESC(?n)"
    );
}

fn with_clockify() -> SortedMap<String> {
    let mut m = base_map();
    m.insert("clockify".to_string(), "https://data.zazuko.com/clockify/".to_string());
    m
}

#[test]
fn terms_expand() {
    let m = with_clockify();
    assert_eq!(expand_term("http://a.org/b", &m), "<http://a.org/b>");
    assert_eq!(expand_term("schema:Person", &m), "<http://schema.org/Person>");
    assert_eq!(expand_term("clockify:user/abc", &m), "<https://data.zazuko.com/clockify/user/abc>");
    assert_eq!(expand_term("unknown:x", &m), "unknown:x");
    assert_eq!(expand_term("plain", &m), "plain");
    assert_eq!(expand_term("schema:a:b", &m), "<http://schema.org/a:b>");
}

#[test]
fn iri_terms_stay_as_given() {
    let m = base_map();
    assert_eq!(expand_term("<http://schema.org/Person>", &m), "<http://schema.org/Person>");
    assert_eq!(expand_term("<urn:x>", &m), "<urn:x>");
    assert_eq!(expand_term("<>", &m), "<>");
    assert_eq!(expand_term("<http://a.org/b", &m), "<<http://a.org/b>");
    assert!(about_q("<http://schema.org/Person>", &m).contains("{ <http://schema.org/Person> ?predicate"));
}

#[test]
fn node_builtins() {
    let m = with_clockify();
    let t = "<https://data.zazuko.com/clockify/user/abc>";
    assert_eq!(count_q("schema:Person", &m), "SELECT (COUNT(?s) AS ?n) WHERE { ?s a <http://schema.org/Person> }");
    assert_eq!(
        about_q("clockify:user/abc", &m),
        format!("SELECT ?dir ?predicate ?object WHERE {{ {{ {t} ?predicate ?object BIND(\"out\" AS ?dir) }} UNION {{ ?object ?predicate {t} BIND(\"in\" AS ?dir) }} }} ORDER BY ?dir ?predicate")
    );
    assert_eq!(
        desc_q("clockify:user/abc", &m),
        format!("CONSTRUCT {{ {t} ?po ?oo . ?si ?pi {t} . }} WHERE {{ {{ {t} ?po ?oo }} UNION {{ ?si ?pi {t} }} }}")
    );
    assert_eq!(
        preds_q("clockify:user/abc", &m),
        format!("SELECT ?predicate (COUNT(*) AS ?n) WHERE {{ {t} ?predicate ?object }} GROUP BY ?predicate ORDER BY DESC(?n)")
    );
    assert_eq!(query_kind(&desc_q("x", &m)), Kind::Graph);
}
