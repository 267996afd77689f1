use sq::cli::{
    arg, color_enabled, inline_query, is_endpoints_command, normalize, plan, read_query, resolve_format,
    term_width, Cli, Plan,
};
use sq::error::SqError;
use sq::prefixes::base_map;

fn cli(rest: &[&str]) -> Cli {
    Cli {
        endpoint: None,
        results: None,
        json: false,
        full: false,
        header: false,
        no_header: false,
        no_prefixes: false,
        color: "auto".to_string(),
        verbose: false,
        dry_run: false,
        force: false,
        rest: rest.iter().map(|s| s.to_string()).collect(),
    }
}

#[test]
fn normalize_pulls_flags_out_of_trailing_args() {
    let mut c = cli(&["update", "--dry-run", "INSERT DATA { }", "-v", "--force", "-H", "--no-header", "-j", "--full", "--no-prefixes"]);
    normalize(&mut c);
    assert_eq!(c.rest, vec!["update".to_string(), "INSERT DATA { }".to_string()]);
    assert!(c.dry_run && c.verbose && c.force && c.header && c.no_header && c.json && c.full && c.no_prefixes);
}

#[test]
fn normalize_long_forms_and_order() {
    let mut c = cli(&["b", "--verbose", "a", "--header", "--json", "c"]);
    normalize(&mut c);
    assert_eq!(c.rest, vec!["b".to_string(), "a".to_string(), "c".to_string()]);
    assert!(c.verbose && c.header && c.json);
    assert!(!c.dry_run && !c.force);
}

#[test]
fn normalize_twice_is_normalize_once() {
    let mut c = cli(&["x", "-v", "y", "--force"]);
    normalize(&mut c);
    let rest = c.rest.clone();
    normalize(&mut c);
    assert_eq!(c.rest, rest);
    assert!(c.verbose && c.force && !c.json);
}

#[test]
fn endpoints_command() {
    assert!(is_endpoints_command(&cli(&["endpoints"]).rest));
    assert!(!is_endpoints_command(&cli(&["endpoint"]).rest));
    assert!(!is_endpoints_command(&cli(&[]).rest));
}

#[test]
fn arguments_and_missing_ones() {
    let c = cli(&["count", "schema:Person"]);
    assert_eq!(arg(&c.rest, 1).ok().unwrap(), "schema:Person");
    let e = arg(&c.rest, 2).err().unwrap();
    assert_eq!(e.message(), "missing argument for `count`");
}

#[test]
fn plans_for_builtins() {
    let m = base_map();
    match plan(&cli(&["any", "3"]).rest, &m).ok().unwrap() {
        Plan::Read(q) => assert_eq!(q, "SELECT * WHERE { ?s ?p ?o } LIMIT 3"),
        _ => panic!("expected a read"),
    }
    match plan(&cli(&["graphs"]).rest, &m).ok().unwrap() {
        Plan::Read(q) => assert!(q.starts_with("SELECT ?graph")),
        _ => panic!("expected a read"),
    }
    match plan(&cli(&["count", "schema:Person"]).rest, &m).ok().unwrap() {
        Plan::Read(q) => assert_eq!(q, "SELECT (COUNT(?s) AS ?n) WHERE { ?s a <http://schema.org/Person> }"),
        _ => panic!("expected a read"),
    }
    match plan(&cli(&["desc", "<urn:x>"]).rest, &m).ok().unwrap() {
        Plan::Read(q) => assert!(q.starts_with("CONSTRUCT { <urn:x> ?po ?oo")),
        _ => panic!("expected a read"),
    }
    let e = plan(&cli(&["about"]).rest, &m).err().unwrap();
    assert!(matches!(&e, SqError::MissingArgument { command } if command == "about"));
}

#[test]
fn plans_for_texts() {
    let m = base_map();
    match plan(&cli(&["update", "INSERT", "DATA { }"]).rest, &m).ok().unwrap() {
        Plan::Update(parts) => assert_eq!(parts, vec!["INSERT".to_string(), "DATA { }".to_string()]),
        _ => panic!("expected an update"),
    }
    match plan(&cli(&["SELECT", "*"]).rest, &m).ok().unwrap() {
        Plan::Query(parts) => assert_eq!(parts.join(" "), "SELECT *"),
        _ => panic!("expected a query"),
    }
    match plan(&cli(&[]).rest, &m).ok().unwrap() {
        Plan::Query(parts) => assert!(parts.is_empty()),
        _ => panic!("expected a query"),
    }
}

#[test]
fn format_choice() {
    let mut c = cli(&[]);
    assert_eq!(resolve_format(&c, true), "text");
    assert_eq!(resolve_format(&c, false), "tsv");
    c.results = Some("CSV".to_string());
    assert_eq!(resolve_format(&c, true), "csv");
    c.json = true;
    assert_eq!(resolve_format(&c, false), "json");
}

#[test]
fn color_choice() {
    let mut c = cli(&[]);
    assert!(color_enabled(&c, "text", true, false));
    assert!(!color_enabled(&c, "text", true, true));
    assert!(!color_enabled(&c, "text", false, false));
    assert!(!color_enabled(&c, "tsv", true, false));
    c.color = "always".to_string();
    assert!(color_enabled(&c, "tsv", false, true));
    c.color = "never".to_string();
    assert!(!color_enabled(&c, "text", true, false));
}

#[test]
fn width_choice() {
    assert_eq!(term_width(Some(80)), 80);
    assert_eq!(term_width(Some(0)), 100);
    assert_eq!(term_width(None), 100);
}

#[test]
fn inline_queries_join_their_parts() {
    let parts: Vec<String> = vec!["SELECT".to_string(), "*".to_string(), "WHERE { ?s ?p ?o }".to_string()];
    assert_eq!(inline_query(&parts).as_deref(), Some("SELECT * WHERE { ?s ?p ?o }"));
    assert_eq!(inline_query(&Vec::new()), None);
}

#[test]
fn read_queries_from_files_and_stdin() {
    assert_eq!(read_query("ASK {}\n".to_string(), true).ok().as_deref(), Some("ASK {}\n"));
    assert_eq!(read_query("".to_string(), false).ok().as_deref(), Some(""));
    let e = read_query(" \n\t".to_string(), true).err().unwrap();
    assert!(matches!(e, SqError::NoQuery));
    assert_eq!(e.message(), "no query given (pass inline, -f FILE, or via stdin)");
}
