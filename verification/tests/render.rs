use sq::cli::Cli;
use sq::error::SqError;
use sq::map::SortedMap;
use sq::prefixes::{base_map, reverse};
use sq::render::{
    check_read_query, csv_quote, fmt_term, graph_accept, plain, read_plan, render_table, update_plan,
    update_reply, Hue, Output, Rendered, Response, Term, TermKind,
};

fn cli() -> Cli {
    Cli {
        endpoint: None,
        results: None,
        json: false,
        full: false,
        header: false,
        no_header: false,
        no_prefixes: false,
        color: "auto".to_string(),
        verbose: false,
        dry_run: false,
        force: false,
        rest: Vec::new(),
    }
}

fn term(t: &str, v: &str) -> Term {
    Term { ttype: t.to_string(), value: v.to_string() }
}

#[test]
fn terms_as_text() {
    let rev = reverse(&base_map());
    let (s, k) = fmt_term(&term("uri", "http://schema.org/Person"), false, &rev);
    assert_eq!((s.as_str(), k), ("schema:Person", TermKind::Uri));
    let (s, _) = fmt_term(&term("uri", "http://schema.org/Person"), true, &rev);
    assert_eq!(s, "http://schema.org/Person");
    let (s, k) = fmt_term(&term("bnode", "b0"), false, &rev);
    assert_eq!((s.as_str(), k), ("_:b0", TermKind::Bnode));
    let (s, k) = fmt_term(&term("literal", "hi"), false, &rev);
    assert_eq!((s.as_str(), k), ("hi", TermKind::Literal));
    let (s, k) = fmt_term(&term("typed-literal", "1"), false, &rev);
    assert_eq!((s.as_str(), k), ("1", TermKind::Literal));
}

#[test]
fn plain_fields_have_no_line_breaks() {
    let rev = reverse(&base_map());
    assert_eq!(plain(&term("literal", "a\tb\nc\rd"), false, &rev), "a b c d");
}

#[test]
fn csv_fields_quote_when_needed() {
    assert_eq!(csv_quote("plain"), "plain");
    assert_eq!(csv_quote("a,b"), "\"a,b\"");
    assert_eq!(csv_quote("say \"hi\""), "\"say \"\"hi\"\"\"");
    assert_eq!(csv_quote("two\nlines"), "\"two\nlines\"");
    assert_eq!(csv_quote("cr\r"), "\"cr\r\"");
    assert_eq!(csv_quote(""), "");
}

fn response() -> Response {
    let mut r1: SortedMap<Term> = SortedMap::new();
    r1.insert("s".to_string(), term("uri", "http://schema.org/Person"));
    r1.insert("o".to_string(), term("literal", "x,y"));
    let mut r2: SortedMap<Term> = SortedMap::new();
    r2.insert("s".to_string(), term("bnode", "b1"));
    Response { vars: vec!["s".to_string(), "o".to_string()], rows: vec![r1, r2], boolean: None }
}

#[test]
fn tsv_lines() {
    let m = base_map();
    let mut c = cli();
    match render_table(&c, "tsv", &response(), &m, false) {
        Rendered::Lines(ls) => assert_eq!(ls, vec!["schema:Person\tx,y".to_string(), "_:b1\t".to_string()]),
        _ => panic!("expected lines"),
    }
    c.header = true;
    match render_table(&c, "tsv", &response(), &m, false) {
        Rendered::Lines(ls) => assert_eq!(ls[0], "s\to"),
        _ => panic!("expected lines"),
    }
    c.no_header = true;
    match render_table(&c, "tsv", &response(), &m, false) {
        Rendered::Lines(ls) => assert_eq!(ls.len(), 2),
        _ => panic!("expected lines"),
    }
}

#[test]
fn csv_lines() {
    let m = base_map();
    let mut c = cli();
    c.full = true;
    match render_table(&c, "csv", &response(), &m, false) {
        Rendered::Lines(ls) => assert_eq!(
            ls,
            vec!["s,o".to_string(), "http://schema.org/Person,\"x,y\"".to_string(), "_:b1,".to_string()]
        ),
        _ => panic!("expected lines"),
    }
    c.no_header = true;
    match render_table(&c, "csv", &response(), &m, false) {
        Rendered::Lines(ls) => assert_eq!(ls.len(), 2),
        _ => panic!("expected lines"),
    }
}

#[test]
fn text_table_cells() {
    let m = base_map();
    match render_table(&cli(), "text", &response(), &m, true) {
        Rendered::Table(t) => {
            assert_eq!(t.header, vec!["s".to_string(), "o".to_string()]);
            assert!(t.bold_header);
            assert_eq!(t.rows.len(), 2);
            assert_eq!(t.rows[0][0].text, "schema:Person");
            assert_eq!(t.rows[0][0].hue, Some(Hue::Cyan));
            assert_eq!(t.rows[0][1].text, "x,y");
            assert_eq!(t.rows[0][1].hue, Some(Hue::Green));
            assert_eq!(t.rows[1][0].hue, Some(Hue::DarkGrey));
            assert_eq!(t.rows[1][1].text, "");
            assert_eq!(t.rows[1][1].hue, None);
        }
        _ => panic!("expected a table"),
    }
    match render_table(&cli(), "text", &response(), &m, false) {
        Rendered::Table(t) => {
            assert!(!t.bold_header);
            assert_eq!(t.rows[0][0].hue, None);
        }
        _ => panic!("expected a table"),
    }
}

#[test]
fn graph_accept_types() {
    assert_eq!(graph_accept("nt"), "application/n-triples");
    assert_eq!(graph_accept("n-triples"), "application/n-triples");
    assert_eq!(graph_accept("nquads"), "application/n-quads");
    assert_eq!(graph_accept("ttl"), "text/turtle");
    assert_eq!(graph_accept("text"), "text/turtle");
}

#[test]
fn read_plans() {
    let m = base_map();
    let c = cli();
    let p = read_plan(&c, "text", "CONSTRUCT { ?s a schema:T } WHERE { ?s ?p ?o }".to_string(), &m);
    assert_eq!(p.accept, "text/turtle");
    assert_eq!(p.output, Output::Raw);
    assert!(p.query.starts_with("PREFIX schema: <http://schema.org/>\n"));
    let p = read_plan(&c, "nt", "DESCRIBE <urn:x>".to_string(), &m);
    assert_eq!(p.accept, "application/n-triples");
    let p = read_plan(&c, "xml", "SELECT * WHERE { ?s ?p ?o }".to_string(), &m);
    assert_eq!((p.accept.as_str(), p.output), ("application/sparql-results+xml", Output::Raw));
    let p = read_plan(&c, "json", "SELECT * WHERE { ?s ?p ?o }".to_string(), &m);
    assert_eq!((p.accept.as_str(), p.output), ("application/sparql-results+json", Output::PrettyJson));
    let p = read_plan(&c, "tsv", "ASK { ?s ?p ?o }".to_string(), &m);
    assert_eq!((p.accept.as_str(), p.output), ("application/sparql-results+json", Output::Results));
    let mut np = cli();
    np.no_prefixes = true;
    let p = read_plan(&np, "tsv", "SELECT * WHERE { ?s a schema:T }".to_string(), &m);
    assert_eq!(p.query, "SELECT * WHERE { ?s a schema:T }");
}

#[test]
fn reads_refuse_updates() {
    assert!(check_read_query("SELECT * WHERE { ?s ?p ?o }").is_ok());
    let e = check_read_query("INSERT DATA { <a> <b> <c> }").err().unwrap();
    assert_eq!(e.message(), "this looks like an update \u{2014} use `sq update '<...>'`");
}

#[test]
fn update_plans() {
    let m = base_map();
    let c = cli();
    let e = update_plan(&c, "SELECT * WHERE { ?s ?p ?o }".to_string(), &m).err().unwrap();
    assert_eq!(e.message(), "this does not look like an update \u{2014} use `sq '<query>'` for reads");
    let e = update_plan(&c, "DROP ALL".to_string(), &m).err().unwrap();
    assert_eq!(e.message(), "refusing destructive op (DROP ALL); re-run with --force if you really mean it");
    let e = update_plan(&c, "DELETE WHERE { ?s ?p ?o }".to_string(), &m).err().unwrap();
    assert!(matches!(&e, SqError::Destructive { what } if what == "unbounded DELETE WHERE"));
    let mut f = cli();
    f.force = true;
    let p = update_plan(&f, "DROP ALL".to_string(), &m).ok().unwrap();
    assert_eq!(p.text, "DROP ALL");
    assert!(p.send && !p.echo);
    let mut d = cli();
    d.dry_run = true;
    let p = update_plan(&d, "INSERT DATA { schema:a schema:b schema:c }".to_string(), &m).ok().unwrap();
    assert!(p.text.starts_with("PREFIX schema: <http://schema.org/>\nINSERT DATA"));
    assert!(p.echo && !p.send);
}

#[test]
fn update_guard_with_braces_out_of_order() {
    let c = cli();
    let p = update_plan(&c, "DELETE WHERE } {".to_string(), &base_map()).ok().unwrap();
    assert_eq!(p.text, "DELETE WHERE } {");
    assert!(p.send);
}

#[test]
fn update_replies() {
    assert_eq!(update_reply("  \n"), None);
    assert_eq!(update_reply(" {\"ok\": true}\n").as_deref(), Some("{\"ok\": true}"));
}

fn read_csv_field(f: &str) -> Option<String> {
    let mut chars = f.chars().peekable();
    if chars.peek() != Some(&'"') {
        return if f.contains([',', '"', '\n', '\r']) { None } else { Some(f.to_string()) };
    }
    chars.next();
    let mut out = String::new();
    while let Some(c) = chars.next() {
        if c == '"' {
            if chars.peek() == Some(&'"') {
                chars.next();
                out.push('"');
            } else {
                return if chars.next().is_none() { Some(out) } else { None };
            }
        } else {
            out.push(c);
        }
    }
    None
}

#[test]
fn csv_fields_read_back() {
    for s in ["", "plain", "a,b", "say \"hi\"", "\"", "\"\"", "line\nbreak\r", "ünï, \"σ\""] {
        assert_eq!(read_csv_field(&csv_quote(s)).as_deref(), Some(s), "{s:?}");
    }
}
