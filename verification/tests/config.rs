use sq::config::{list_endpoints, merged, pick, resolve, token_vars, EndpointCfg, FileConfig};
use sq::error::SqError;
use sq::map::SortedMap;

fn ep(url: &str, token: Option<&str>) -> EndpointCfg {
    EndpointCfg { url: url.to_string(), token_env: token.map(|t| t.to_string()) }
}

fn user_cfg() -> FileConfig {
    let mut c = FileConfig::empty();
    c.default = Some("local".to_string());
    c.endpoints.insert("local".to_string(), ep("http://localhost:7077/api", Some("QLEVER_TOKEN")));
    c.endpoints.insert("prod".to_string(), ep("https://kg.example.com/api", Some("PROD_TOKEN")));
    c.prefixes.insert("ex".to_string(), "http://user.example/".to_string());
    c.prefixes.insert("schema".to_string(), "http://user-schema/".to_string());
    c
}

fn ws_cfg() -> FileConfig {
    let mut c = FileConfig::empty();
    c.endpoints.insert("prod".to_string(), ep("https://ws.example.com/api", None));
    c.prefixes.insert("ex".to_string(), "http://ws.example/".to_string());
    c.prefixes.insert("clockify".to_string(), "https://data.zazuko.com/clockify/".to_string());
    c
}

#[test]
fn merged_layers_workspace_over_user_over_standard() {
    let m = merged(user_cfg(), ws_cfg());
    assert_eq!(m.default.as_deref(), Some("local"));
    assert_eq!(m.endpoints.get("prod").map(|e| e.url.as_str()), Some("https://ws.example.com/api"));
    assert_eq!(m.endpoints.get("local").map(|e| e.url.as_str()), Some("http://localhost:7077/api"));
    assert_eq!(m.prefixes.get("ex").map(|s| s.as_str()), Some("http://ws.example/"));
    assert_eq!(m.prefixes.get("schema").map(|s| s.as_str()), Some("http://user-schema/"));
    assert_eq!(m.prefixes.get("clockify").map(|s| s.as_str()), Some("https://data.zazuko.com/clockify/"));
    assert_eq!(m.prefixes.get("rdf").map(|s| s.as_str()), Some("http://www.w3.org/1999/02/22-rdf-syntax-ns#"));
    assert_eq!(m.prefixes.len(), 112);
}

#[test]
fn merged_default_prefers_workspace() {
    let mut ws = ws_cfg();
    ws.default = Some("prod".to_string());
    let m = merged(user_cfg(), ws);
    assert_eq!(m.default.as_deref(), Some("prod"));
    let m2 = merged(FileConfig::empty(), FileConfig::empty());
    assert!(m2.default.is_none());
    assert!(m2.endpoints.is_empty());
    assert_eq!(m2.prefixes.len(), 110);
}

#[test]
fn pick_urls_and_names() {
    let m = merged(user_cfg(), ws_cfg());
    let (u, t) = pick("http://raw.example/sparql", &m.endpoints).ok().unwrap();
    assert_eq!(u, "http://raw.example/sparql");
    assert!(t.is_none());
    let (u, t) = pick("local", &m.endpoints).ok().unwrap();
    assert_eq!(u, "http://localhost:7077/api");
    assert_eq!(t.as_deref(), Some("QLEVER_TOKEN"));
}

#[test]
fn pick_unknown_names_the_known_ones() {
    let m = merged(user_cfg(), ws_cfg());
    let e = pick("staging", &m.endpoints).err().unwrap();
    assert_eq!(
        e.message(),
        "unknown endpoint 'staging' (not a URL and not in config). Known: local, prod"
    );
    let empty: SortedMap<EndpointCfg> = SortedMap::new();
    let e = pick("x", &empty).err().unwrap();
    assert_eq!(e.message(), "unknown endpoint 'x' (not a URL and not in config). Known: <none>");
    assert!(matches!(e, SqError::UnknownEndpoint { .. }));
}

#[test]
fn resolve_follows_the_documented_order() {
    let r = resolve(Some("prod"), Some("http://env/".to_string()), merged(user_cfg(), ws_cfg())).ok().unwrap();
    assert_eq!(r.url, "https://ws.example.com/api");
    assert!(r.token_env.is_none());
    let r = resolve(None, Some("http://env/".to_string()), merged(user_cfg(), ws_cfg())).ok().unwrap();
    assert_eq!(r.url, "http://env/");
    let r = resolve(None, None, merged(user_cfg(), ws_cfg())).ok().unwrap();
    assert_eq!(r.url, "http://localhost:7077/api");
    assert_eq!(r.token_env.as_deref(), Some("QLEVER_TOKEN"));
    assert_eq!(r.prefixes.get("ex").map(|s| s.as_str()), Some("http://ws.example/"));
    let r = resolve(None, None, merged(FileConfig::empty(), FileConfig::empty())).ok().unwrap();
    assert_eq!(r.url, "http://localhost:7077/api");
    assert!(r.token_env.is_none());
}

#[test]
fn resolve_reports_an_unknown_default() {
    let mut u = user_cfg();
    u.default = Some("gone".to_string());
    let e = resolve(None, None, merged(u, ws_cfg())).err().unwrap();
    assert_eq!(e.message(), "unknown endpoint 'gone' (not a URL and not in config). Known: local, prod");
}

#[test]
fn endpoint_listing() {
    let m = merged(user_cfg(), ws_cfg());
    let lines = list_endpoints("http://localhost:7077/api", &m);
    assert_eq!(
        lines,
        vec![
            "resolved: http://localhost:7077/api".to_string(),
            "configured:".to_string(),
            "  * local      http://localhost:7077/api".to_string(),
            "    prod       https://ws.example.com/api".to_string(),
        ]
    );
    let none = merged(FileConfig::empty(), FileConfig::empty());
    assert_eq!(
        list_endpoints("http://x/", &none),
        vec![
            "resolved: http://x/".to_string(),
            "(no named endpoints configured; built-in default http://localhost:7077/api)".to_string(),
        ]
    );
    let mut long = FileConfig::empty();
    long.endpoints.insert("averyverylongname".to_string(), ep("u", None));
    assert_eq!(list_endpoints("u", &merged(long, FileConfig::empty()))[2], "    averyverylongname u");
}

#[test]
fn token_variables_in_order() {
    assert_eq!(token_vars(&None), vec!["SQ_TOKEN".to_string(), "QLEVER_TOKEN".to_string()]);
    assert_eq!(
        token_vars(&Some("PROD_TOKEN".to_string())),
        vec!["SQ_TOKEN".to_string(), "QLEVER_TOKEN".to_string(), "PROD_TOKEN".to_string()]
    );
}
