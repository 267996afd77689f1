//! Config merging and endpoint resolution.
//!
//! Resolution order for the endpoint:
//!   --endpoint/-e (name or URL) > SQ_ENDPOINT env > .sq.toml (cwd + ancestors)
//!   > ~/.config/sq/config.toml default > built-in http://localhost:7077/api
//!
//! Reading the files and the environment is the caller's part; this module
//! decides from what was read.
use vstd::prelude::*;
use crate::error::SqError;
use crate::map::SortedMap;
use crate::prefixes::{base_map, standard_map};
use crate::scan::{contains, contains_str};
use crate::cli::texts;
use crate::text::{append_chars, append_str, chars_of, string_of};

verus! {

/// The endpoint used when nothing else selects one.
pub fn builtin_endpoint() -> (r: String)
    ensures
        r@ == "http://localhost:7077/api"@,
{
    "http://localhost:7077/api".to_owned()
}

/// The text of an optional string.
pub open spec fn opt_view(o: Option<String>) -> Option<Seq<char>> {
    match o {
        Some(s) => Some(s@),
        None => None,
    }
}

/// A named endpoint: its URL and the environment variable holding its token.
pub struct EndpointCfg {
    pub url: String,
    pub token_env: Option<String>,
}

/// What an endpoint holds, as text.
pub struct EndpointView {
    pub url: Seq<char>,
    pub token_env: Option<Seq<char>>,
}

impl View for EndpointCfg {
    type V = EndpointView;

    open spec fn view(&self) -> EndpointView {
        EndpointView { url: self.url@, token_env: opt_view(self.token_env) }
    }
}

/// One config file's contents.
pub struct FileConfig {
    pub default: Option<String>,
    pub endpoints: SortedMap<EndpointCfg>,
    pub prefixes: SortedMap<String>,
}

impl FileConfig {
    /// A config file with nothing in it (what a missing or unreadable file
    /// counts as).
    pub fn empty() -> (r: Self)
        ensures
            r.default is None,
            r.endpoints@ == Map::<Seq<char>, EndpointView>::empty(),
            r.prefixes@ == Map::<Seq<char>, Seq<char>>::empty(),
    {
        FileConfig { default: None, endpoints: SortedMap::new(), prefixes: SortedMap::new() }
    }
}

/// Merged view of user + workspace config.
pub struct Merged {
    pub default: Option<String>,
    pub endpoints: SortedMap<EndpointCfg>,
    pub prefixes: SortedMap<String>,
}

/// The user config and the workspace config merged: workspace endpoints
/// and prefixes win over the user's, both over the standard prefixes, and
/// the workspace default wins over the user default.
pub fn merged(user: FileConfig, ws: FileConfig) -> (m: Merged)
    ensures
        m.endpoints@ == user.endpoints@.union_prefer_right(ws.endpoints@),
        m.prefixes@ == standard_map().union_prefer_right(user.prefixes@).union_prefer_right(
            ws.prefixes@,
        ),
        m.default == (match ws.default {
            Some(d) => Some(d),
            None => user.default,
        }),
{
    let FileConfig { default: user_default, endpoints: user_endpoints, prefixes: user_prefixes } =
        user;
    let FileConfig { default: ws_default, endpoints: ws_endpoints, prefixes: ws_prefixes } = ws;
    let mut endpoints = user_endpoints;
    endpoints.extend(ws_endpoints);
    let mut prefixes = base_map();
    prefixes.extend(user_prefixes);
    prefixes.extend(ws_prefixes);
    let default = match ws_default {
        Some(d) => Some(d),
        None => user_default,
    };
    Merged { default, endpoints, prefixes }
}

/// The endpoint that a selector picks: a raw URL (it contains `://`) with no
/// token variable, or the configured endpoint of that name; `None` when it
/// is neither.
pub open spec fn pick_spec(sel: Seq<char>, endpoints: Map<Seq<char>, EndpointView>) -> Option<
    (Seq<char>, Option<Seq<char>>),
> {
    if contains(sel, "://"@) {
        Some((sel, None))
    } else if endpoints.contains_key(sel) {
        Some((endpoints[sel].url, endpoints[sel].token_env))
    } else {
        None
    }
}

/// The error for a selector that picks nothing: it names the selector and
/// lists the configured endpoint names in ascending order.
pub open spec fn unknown_endpoint(e: SqError, sel: Seq<char>, endpoints: SortedMap<EndpointCfg>) -> bool {
    match e {
        SqError::UnknownEndpoint { name, known } => name@ == sel && known@.map_values(
            |s: String| s@,
        ) == endpoints.pairs().map_values(|p: (String, EndpointCfg)| p.0@),
        _ => false,
    }
}

/// The configured names, in ascending order.
fn endpoint_names(endpoints: &SortedMap<EndpointCfg>) -> (r: Vec<String>)
    ensures
        r@.map_values(|s: String| s@) == endpoints.pairs().map_values(
            |p: (String, EndpointCfg)| p.0@,
        ),
{
    let es = endpoints.entries();
    let mut r: Vec<String> = Vec::new();
    let mut i: usize = 0;
    while i < es.len()
        invariant
            es@ == endpoints.pairs(),
            i <= es@.len(),
            r@.map_values(|s: String| s@) == es@.map_values(|p: (String, EndpointCfg)| p.0@).take(
                i as int,
            ),
        decreases es.len() - i,
    {
        let ghost before = r@.map_values(|s: String| s@);
        r.push(es[i].0.clone());
        assert(r@.map_values(|s: String| s@) =~= before.push(es@[i as int].0@));
        assert(r@.map_values(|s: String| s@) =~= es@.map_values(|p: (String, EndpointCfg)| p.0@).take(i + 1));
        i += 1;
    }
    assert(es@.map_values(|p: (String, EndpointCfg)| p.0@).take(es.len() as int) =~= es@.map_values(
        |p: (String, EndpointCfg)| p.0@,
    ));
    r
}

/// A copy of an optional string.
fn clone_opt(o: &Option<String>) -> (r: Option<String>)
    ensures
        opt_view(r) == opt_view(*o),
{
    match o {
        Some(s) => Some(s.clone()),
        None => None,
    }
}

/// A selector is either a raw URL (contains `://`) or a named endpoint.
pub fn pick(sel: &str, endpoints: &SortedMap<EndpointCfg>) -> (r: Result<(String, Option<String>), SqError>)
    ensures
        match r {
            Ok((url, token_env)) => pick_spec(sel@, endpoints@) == Some((url@, opt_view(token_env))),
            Err(e) => pick_spec(sel@, endpoints@) is None && unknown_endpoint(e, sel@, *endpoints),
        },
{
    let s = chars_of(sel);
    if contains_str(&s, "://") {
        return Ok((sel.to_owned(), None));
    }
    match endpoints.get(sel) {
        Some(e) => Ok((e.url.clone(), clone_opt(&e.token_env))),
        None => Err(SqError::UnknownEndpoint { name: sel.to_owned(), known: endpoint_names(endpoints) }),
    }
}

/// The resolved endpoint and the prefixes to inject.
pub struct Resolved {
    pub url: String,
    pub token_env: Option<String>,
    pub prefixes: SortedMap<String>,
}

/// The endpoint that resolution settles on: the command-line selector, else
/// the `SQ_ENDPOINT` URL, else the configured default name, else the
/// built-in URL; `None` when the selector or default names nothing.
pub open spec fn resolve_spec(
    cli: Option<Seq<char>>,
    env: Option<Seq<char>>,
    default: Option<Seq<char>>,
    endpoints: Map<Seq<char>, EndpointView>,
) -> Option<(Seq<char>, Option<Seq<char>>)> {
    match cli {
        Some(sel) => pick_spec(sel, endpoints),
        None => match env {
            Some(url) => Some((url, None)),
            None => match default {
                Some(name) => pick_spec(name, endpoints),
                None => Some(("http://localhost:7077/api"@, None)),
            },
        },
    }
}

/// Resolves the endpoint from the command-line selector `cli_endpoint`, the
/// value of `SQ_ENDPOINT` (`env_endpoint`) and the merged config `m`.
pub fn resolve(cli_endpoint: Option<&str>, env_endpoint: Option<String>, m: Merged) -> (r: Result<
    Resolved,
    SqError,
>)
    ensures
        ({
            let cli = match cli_endpoint {
                Some(s) => Some(s@),
                None => None,
            };
            match r {
                Ok(res) => resolve_spec(cli, opt_view(env_endpoint), opt_view(m.default), m.endpoints@)
                    == Some((res.url@, opt_view(res.token_env))) && res.prefixes@ == m.prefixes@,
                Err(e) => resolve_spec(cli, opt_view(env_endpoint), opt_view(m.default), m.endpoints@)
                    is None && unknown_endpoint(
                    e,
                    match cli {
                        Some(s) => s,
                        None => opt_view(m.default)->0,
                    },
                    m.endpoints,
                ),
            }
        }),
{
    let Merged { default, endpoints, prefixes } = m;
    let (url, token_env) = if let Some(sel) = cli_endpoint {
        pick(sel, &endpoints)?
    } else if let Some(env_url) = env_endpoint {
        (env_url, None)
    } else if let Some(name) = &default {
        pick(name.as_str(), &endpoints)?
    } else {
        (builtin_endpoint(), None)
    };
    Ok(Resolved { url, token_env, prefixes })
}

// ── the endpoint listing ───────────────────────────────────────────────────

/// `s` padded with spaces to at least ten characters (`{:<10}`).
pub open spec fn pad10(s: Seq<char>) -> Seq<char> {
    if s.len() >= 10 {
        s
    } else {
        s + Seq::new((10 - s.len()) as nat, |i: int| ' ')
    }
}

/// The listing line of one endpoint; `*` marks the default.
pub open spec fn endpoint_line(name: Seq<char>, url: Seq<char>, is_default: bool) -> Seq<char> {
    "  "@ + (if is_default {
        "*"@
    } else {
        " "@
    }) + " "@ + pad10(name) + " "@ + url
}

/// The lines of `sq endpoints`: the resolved URL, then the configured
/// endpoints in name order (or a note that there are none).
pub open spec fn listing(url: Seq<char>, default: Option<Seq<char>>, eps: Seq<(String, EndpointCfg)>) -> Seq<Seq<char>> {
    seq!["resolved: "@ + url] + if eps.len() == 0 {
        seq!["(no named endpoints configured; built-in default http://localhost:7077/api)"@]
    } else {
        seq!["configured:"@] + eps.map_values(
            |e: (String, EndpointCfg)| endpoint_line(e.0@, e.1.url@, default == Some(e.0@)),
        )
    }
}

/// The characters of `s` padded with spaces to at least ten.
fn pad10_exec(s: &str) -> (r: Vec<char>)
    ensures
        r@ == pad10(s@),
{
    let mut out = chars_of(s);
    if out.len() >= 10 {
        return out;
    }
    let n = out.len();
    let ghost base = out@;
    while out.len() < 10
        invariant
            n <= out.len() <= 10,
            n == base.len(),
            out@ == base + Seq::new((out.len() - n) as nat, |i: int| ' '),
        decreases 10 - out.len(),
    {
        out.push(' ');
        assert(out@ =~= base + Seq::new((out.len() - n) as nat, |i: int| ' '));
    }
    out
}

/// The lines that `sq endpoints` prints.
pub fn list_endpoints(resolved_url: &str, m: &Merged) -> (r: Vec<String>)
    ensures
        texts(r@) == listing(resolved_url@, opt_view(m.default), m.endpoints.pairs()),
{
    let mut out: Vec<String> = Vec::new();
    let mut first = chars_of("resolved: ");
    append_str(&mut first, resolved_url);
    out.push(string_of(&first));
    let es = m.endpoints.entries();
    if es.len() == 0 {
        out.push("(no named endpoints configured; built-in default http://localhost:7077/api)".to_owned());
        assert(texts(out@) =~= listing(resolved_url@, opt_view(m.default), m.endpoints.pairs()));
        return out;
    }
    out.push("configured:".to_owned());
    let ghost head = texts(out@);
    let ghost want = es@.map_values(
        |e: (String, EndpointCfg)| endpoint_line(e.0@, e.1.url@, opt_view(m.default) == Some(e.0@)),
    );
    let dflt: Option<Vec<char>> = match &m.default {
        Some(d) => Some(chars_of(d.as_str())),
        None => None,
    };
    let mut i: usize = 0;
    while i < es.len()
        invariant
            es@ == m.endpoints.pairs(),
            i <= es@.len(),
            want == es@.map_values(
                |e: (String, EndpointCfg)| endpoint_line(e.0@, e.1.url@, opt_view(m.default) == Some(e.0@)),
            ),
            match dflt {
                Some(d) => opt_view(m.default) == Some(d@),
                None => m.default is None,
            },
            texts(out@) == head + want.take(i as int),
        decreases es.len() - i,
    {
        let name = chars_of(es[i].0.as_str());
        let star = match &dflt {
            Some(d) => crate::text::same_chars(d, &name),
            None => false,
        };
        let mut line = chars_of("  ");
        append_str(&mut line, if star { "*" } else { " " });
        append_str(&mut line, " ");
        let padded = pad10_exec(es[i].0.as_str());
        append_chars(&mut line, &padded);
        append_str(&mut line, " ");
        append_str(&mut line, es[i].1.url.as_str());
        assert(line@ == want[i as int]);
        let ghost before = texts(out@);
        out.push(string_of(&line));
        assert(texts(out@) =~= before.push(line@));
        assert(want.take(i + 1) =~= want.take(i as int).push(want[i as int]));
        assert(texts(out@) =~= head + want.take(i + 1));
        i += 1;
    }
    assert(want.take(es.len() as int) =~= want);
    assert(texts(out@) =~= listing(resolved_url@, opt_view(m.default), m.endpoints.pairs()));
    out
}

/// The environment variables that may hold the update token, in the order
/// they are tried: `SQ_TOKEN`, `QLEVER_TOKEN`, then the endpoint's own
/// `token_env` when it has one.
pub fn token_vars(token_env: &Option<String>) -> (r: Vec<String>)
    ensures
        texts(r@) == seq!["SQ_TOKEN"@, "QLEVER_TOKEN"@] + match opt_view(*token_env) {
            Some(t) => seq![t],
            None => Seq::<Seq<char>>::empty(),
        },
{
    let mut r: Vec<String> = Vec::new();
    r.push("SQ_TOKEN".to_owned());
    r.push("QLEVER_TOKEN".to_owned());
    if let Some(t) = token_env {
        r.push(t.clone());
    }
    assert(texts(r@) =~= seq!["SQ_TOKEN"@, "QLEVER_TOKEN"@] + match opt_view(*token_env) {
        Some(t) => seq![t],
        None => Seq::<Seq<char>>::empty(),
    });
    r
}

} // verus!
