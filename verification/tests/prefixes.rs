use sq::map::SortedMap;
use sq::prefixes::{base_map, inject, reverse, shrink};
use sq::query::{expand_term, query_kind};

fn map_of(pairs: &[(&str, &str)]) -> SortedMap<String> {
    let mut m = SortedMap::new();
    for (k, v) in pairs {
        m.insert(k.to_string(), v.to_string());
    }
    m
}

#[test]
fn base_map_holds_the_standard_set() {
    let m = base_map();
    assert_eq!(m.len(), 110);
    assert_eq!(m.get("schema").map(|s| s.as_str()), Some("http://schema.org/"));
    assert_eq!(m.get("rdf").map(|s| s.as_str()), Some("http://www.w3.org/1999/02/22-rdf-syntax-ns#"));
    assert_eq!(m.get("xsd").map(|s| s.as_str()), Some("http://www.w3.org/2001/XMLSchema#"));
    assert!(m.get("nope").is_none());
}

#[test]
fn base_map_iterates_in_key_order() {
    let m = base_map();
    let keys: Vec<&String> = m.entries().iter().map(|(k, _)| k).collect();
    let mut sorted = keys.clone();
    sorted.sort();
    assert_eq!(keys, sorted);
    assert_eq!(keys[0], "acl");
}

#[test]
fn inject_adds_a_used_prefix() {
    let m = base_map();
    let q = "SELECT ?s WHERE { ?s a schema:Person } LIMIT 5";
    assert_eq!(inject(q, &m), format!("PREFIX schema: <http://schema.org/>\n{q}"));
}

#[test]
fn inject_leaves_declared_prefixes_alone() {
    let m = base_map();
    let q = "PREFIX schema: <http://example.org/>\nSELECT ?s WHERE { ?s a schema:Person }";
    assert_eq!(inject(q, &m), q);
    let q2 = "prefix SCHEMA: <http://example.org/>\nSELECT ?s WHERE { ?s a schema:Person }";
    assert_eq!(inject(q2, &m), q2);
}

#[test]
fn inject_ignores_names_inside_iris_and_words() {
    let m = base_map();
    let q = "SELECT * WHERE { <http://x.org/schema:Person> ?p ?o . ?s ?p xschema:y }";
    assert_eq!(inject(q, &m), q);
}

#[test]
fn inject_resumes_after_a_rejected_occurrence() {
    let m = base_map();
    let q = "SELECT * WHERE { ?a_schema:x ?p schema:y }";
    assert!(inject(q, &m).starts_with("PREFIX schema: <http://schema.org/>\n"));
}

#[test]
fn inject_declares_in_prefix_order() {
    let m = base_map();
    let q = "SELECT * WHERE { ?s xsd:int ?o ; rdf:type ?t }";
    assert_eq!(
        inject(q, &m),
        format!(
            "PREFIX rdf: <http://www.w3.org/1999/02/22-rdf-syntax-ns#>\nPREFIX xsd: <http://www.w3.org/2001/XMLSchema#>\n{q}"
        )
    );
}

#[test]
fn inject_keeps_the_query_kind() {
    let m = base_map();
    for q in [
        "INSERT DATA { schema:a schema:b schema:c }",
        "# c\nCONSTRUCT { ?s a foaf:Person } WHERE { ?s ?p ?o }",
        "ask { ?s a owl:Class }",
        "rdf:type",
    ] {
        assert_eq!(query_kind(&inject(q, &m)), query_kind(q));
    }
}

#[test]
fn reverse_runs_longest_namespace_first() {
    let m = map_of(&[("a", "http://e.org/"), ("b", "http://e.org/x/"), ("c", "http://f.org/")]);
    let rev = reverse(&m);
    let want: Vec<(String, String)> = vec![
        ("http://e.org/x/".into(), "b".into()),
        ("http://e.org/".into(), "a".into()),
        ("http://f.org/".into(), "c".into()),
    ];
    assert_eq!(rev, want);
}

#[test]
fn shrink_picks_the_most_specific_namespace() {
    let m = map_of(&[("a", "http://e.org/"), ("b", "http://e.org/x/")]);
    let rev = reverse(&m);
    assert_eq!(shrink("http://e.org/x/y", &rev), "b:y");
    assert_eq!(shrink("http://e.org/z", &rev), "a:z");
}

#[test]
fn shrink_keeps_iris_without_a_valid_local_part() {
    let m = map_of(&[("a", "http://e.org/"), ("b", "http://e.org/x/")]);
    let rev = reverse(&m);
    assert_eq!(shrink("http://e.org/x/y/z", &rev), "http://e.org/x/y/z");
    assert_eq!(shrink("http://e.org/-x", &rev), "http://e.org/-x");
    assert_eq!(shrink("http://e.org/", &rev), "http://e.org/");
    assert_eq!(shrink("http://g.org/x", &rev), "http://g.org/x");
    assert_eq!(shrink("http://e.org/1a.b-c_d", &rev), "a:1a.b-c_d");
    assert_eq!(shrink("http://e.org/x.", &rev), "http://e.org/x.");
}

#[test]
fn shrink_rejects_a_local_part_ending_in_a_dot() {
    let rev = reverse(&base_map());
    assert_eq!(shrink("http://schema.org/x.", &rev), "http://schema.org/x.");
    assert_eq!(shrink("http://schema.org/x.y", &rev), "schema:x.y");
}

#[test]
fn shrink_with_the_standard_set() {
    let rev = reverse(&base_map());
    assert_eq!(shrink("http://schema.org/Person", &rev), "schema:Person");
    assert_eq!(shrink("http://www.w3.org/2000/01/rdf-schema#label", &rev), "rdfs:label");
}

#[test]
fn shrunk_names_expand_back() {
    let m = base_map();
    let rev = reverse(&m);
    for iri in ["http://schema.org/Person", "http://xmlns.com/foaf/0.1/name", "http://www.w3.org/2001/XMLSchema#int"] {
        let s = shrink(iri, &rev);
        assert_ne!(s, iri);
        assert_eq!(expand_term(&s, &m), format!("<{iri}>"));
    }
}

#[test]
fn injecting_twice_adds_nothing_more() {
    let m = base_map();
    for q in [
        "SELECT ?s WHERE { ?s a schema:Person ; rdfs:label ?l }",
        "PREFIX schema: <http://schema.org/>\nSELECT * WHERE { ?s a schema:Thing ; foaf:name ?n }",
        "ASK { ?s owl:sameAs ?o . ?o dcterms:title \"Ünïcode Σ\" }",
    ] {
        let once = inject(q, &m);
        assert_eq!(inject(&once, &m), once);
    }
}
