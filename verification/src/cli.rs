//! The command line: flags pulled out of trailing arguments, the
//! subcommand's plan, and the choices that depend on the terminal.
use vstd::prelude::*;
use crate::error::SqError;
use crate::map::SortedMap;
use crate::query::{
    about_q, about_text, any_q, any_q_spec, classes_q, classes_text, count_q, count_text, desc_q,
    desc_text, graphs_q, graphs_text, preds_q, preds_text,
};
use crate::scan::{join, join_chars, trim, trim_chars, views};
use crate::text::{chars_eq_str, chars_of, lower, lower_chars, string_of};

verus! {

/// The parsed command line, without the query file (which only the caller
/// reads).
pub struct Cli {
    pub endpoint: Option<String>,
    pub results: Option<String>,
    pub json: bool,
    pub full: bool,
    pub header: bool,
    pub no_header: bool,
    pub no_prefixes: bool,
    pub color: String,
    pub verbose: bool,
    pub dry_run: bool,
    pub force: bool,
    pub rest: Vec<String>,
}

/// The text of each string in a sequence.
pub open spec fn texts(s: Seq<String>) -> Seq<Seq<char>> {
    s.map_values(|t: String| t@)
}

/// The boolean flags that may also appear among the trailing arguments.
#[derive(Clone, Copy, PartialEq, Eq, Structural)]
pub enum Flag {
    DryRun,
    Force,
    NoPrefixes,
    Full,
    Verbose,
    Header,
    NoHeader,
    Json,
}

/// Which boolean flag an argument is, if any (`-v`, `-H` and `-j` are the
/// short forms of `--verbose`, `--header` and `--json`).
pub open spec fn flag_kind(t: Seq<char>) -> Option<Flag> {
    if t == "--dry-run"@ {
        Some(Flag::DryRun)
    } else if t == "--force"@ {
        Some(Flag::Force)
    } else if t == "--no-prefixes"@ {
        Some(Flag::NoPrefixes)
    } else if t == "--full"@ {
        Some(Flag::Full)
    } else if t == "-v"@ || t == "--verbose"@ {
        Some(Flag::Verbose)
    } else if t == "-H"@ || t == "--header"@ {
        Some(Flag::Header)
    } else if t == "--no-header"@ {
        Some(Flag::NoHeader)
    } else if t == "-j"@ || t == "--json"@ {
        Some(Flag::Json)
    } else {
        None
    }
}

/// The arguments that are not boolean flags, in order.
pub open spec fn non_flags(s: Seq<Seq<char>>) -> Seq<Seq<char>>
    decreases s.len(),
{
    if s.len() == 0 {
        s
    } else if flag_kind(s.last()) is Some {
        non_flags(s.drop_last())
    } else {
        non_flags(s.drop_last()).push(s.last())
    }
}

/// Normalizing twice is normalizing once: the arguments that are left hold
/// no boolean flag, so a second pass keeps them all and sets no flag.
pub proof fn lemma_normalize_idempotent(s: Seq<Seq<char>>)
    ensures
        non_flags(non_flags(s)) == non_flags(s),
        forall|i: int| 0 <= i < non_flags(s).len() ==> flag_kind(#[trigger] non_flags(s)[i]) is None,
    decreases s.len(),
{
    if s.len() > 0 {
        lemma_normalize_idempotent(s.drop_last());
        let t = non_flags(s.drop_last());
        if flag_kind(s.last()) is None {
            let u = t.push(s.last());
            assert(u.drop_last() =~= t);
            assert forall|i: int| 0 <= i < u.len() implies flag_kind(#[trigger] u[i]) is None by {
                if i < t.len() {
                    assert(u[i] == t[i]);
                }
            }
        }
    }
}

/// Some argument of `s` is the flag `k`.
pub open spec fn has_flag(s: Seq<Seq<char>>, k: Flag) -> bool {
    exists|i: int| 0 <= i < s.len() && flag_kind(#[trigger] s[i]) == Some(k)
}

/// Appending an argument adds its flag to those present.
proof fn lemma_has_flag_push(pre: Seq<Seq<char>>, t: Seq<char>, k: Flag)
    ensures
        has_flag(pre.push(t), k) == (has_flag(pre, k) || flag_kind(t) == Some(k)),
{
    let cur = pre.push(t);
    if has_flag(pre, k) {
        let j = choose|j: int| 0 <= j < pre.len() && flag_kind(#[trigger] pre[j]) == Some(k);
        assert(cur[j] == pre[j]);
    }
    if has_flag(cur, k) {
        let j = choose|j: int| 0 <= j < cur.len() && flag_kind(#[trigger] cur[j]) == Some(k);
        if j < pre.len() {
            assert(cur[j] == pre[j]);
        }
    }
    if flag_kind(t) == Some(k) {
        assert(cur[pre.len() as int] == t);
    }
}

/// Which boolean flag the argument `t` is, if any.
fn flag_kind_exec(t: &Vec<char>) -> (k: Option<Flag>)
    ensures
        k == flag_kind(t@),
{
    if chars_eq_str(t, "--dry-run") {
        Some(Flag::DryRun)
    } else if chars_eq_str(t, "--force") {
        Some(Flag::Force)
    } else if chars_eq_str(t, "--no-prefixes") {
        Some(Flag::NoPrefixes)
    } else if chars_eq_str(t, "--full") {
        Some(Flag::Full)
    } else if chars_eq_str(t, "-v") || chars_eq_str(t, "--verbose") {
        Some(Flag::Verbose)
    } else if chars_eq_str(t, "-H") || chars_eq_str(t, "--header") {
        Some(Flag::Header)
    } else if chars_eq_str(t, "--no-header") {
        Some(Flag::NoHeader)
    } else if chars_eq_str(t, "-j") || chars_eq_str(t, "--json") {
        Some(Flag::Json)
    } else {
        None
    }
}

/// Pull recognized boolean flags out of the trailing args, wherever they land
/// (clap's trailing_var_arg otherwise captures flags typed *after* a
/// subcommand, e.g. `sq update --dry-run '...'`). Value flags still go
/// before the query.
pub fn normalize(cli: &mut Cli)
    ensures
        texts(final(cli).rest@) == non_flags(texts(old(cli).rest@)),
        final(cli).dry_run == (old(cli).dry_run || has_flag(texts(old(cli).rest@), Flag::DryRun)),
        final(cli).force == (old(cli).force || has_flag(texts(old(cli).rest@), Flag::Force)),
        final(cli).no_prefixes == (old(cli).no_prefixes || has_flag(texts(old(cli).rest@), Flag::NoPrefixes)),
        final(cli).full == (old(cli).full || has_flag(texts(old(cli).rest@), Flag::Full)),
        final(cli).verbose == (old(cli).verbose || has_flag(texts(old(cli).rest@), Flag::Verbose)),
        final(cli).header == (old(cli).header || has_flag(texts(old(cli).rest@), Flag::Header)),
        final(cli).no_header == (old(cli).no_header || has_flag(texts(old(cli).rest@), Flag::NoHeader)),
        final(cli).json == (old(cli).json || has_flag(texts(old(cli).rest@), Flag::Json)),
        final(cli).endpoint == old(cli).endpoint,
        final(cli).results == old(cli).results,
        final(cli).color == old(cli).color,
{
    let mut rest: Vec<String> = Vec::new();
    std::mem::swap(&mut rest, &mut cli.rest);
    let ghost r0 = texts(rest@);
    let ghost c0 = *cli;
    let mut cleaned: Vec<String> = Vec::new();
    let mut i: usize = 0;
    while i < rest.len()
        invariant
            r0 == texts(rest@),
            i <= rest.len(),
            texts(cleaned@) == non_flags(r0.take(i as int)),
            cli.dry_run == (c0.dry_run || has_flag(r0.take(i as int), Flag::DryRun)),
            cli.force == (c0.force || has_flag(r0.take(i as int), Flag::Force)),
            cli.no_prefixes == (c0.no_prefixes || has_flag(r0.take(i as int), Flag::NoPrefixes)),
            cli.full == (c0.full || has_flag(r0.take(i as int), Flag::Full)),
            cli.verbose == (c0.verbose || has_flag(r0.take(i as int), Flag::Verbose)),
            cli.header == (c0.header || has_flag(r0.take(i as int), Flag::Header)),
            cli.no_header == (c0.no_header || has_flag(r0.take(i as int), Flag::NoHeader)),
            cli.json == (c0.json || has_flag(r0.take(i as int), Flag::Json)),
            cli.endpoint == c0.endpoint,
            cli.results == c0.results,
            cli.color == c0.color,
        decreases rest.len() - i,
    {
        let t = chars_of(rest[i].as_str());
        let ghost pre = r0.take(i as int);
        let ghost cur = r0.take(i + 1);
        assert(cur =~= pre.push(t@));
        proof {
            lemma_has_flag_push(pre, t@, Flag::DryRun);
            lemma_has_flag_push(pre, t@, Flag::Force);
            lemma_has_flag_push(pre, t@, Flag::NoPrefixes);
            lemma_has_flag_push(pre, t@, Flag::Full);
            lemma_has_flag_push(pre, t@, Flag::Verbose);
            lemma_has_flag_push(pre, t@, Flag::Header);
            lemma_has_flag_push(pre, t@, Flag::NoHeader);
            lemma_has_flag_push(pre, t@, Flag::Json);
            assert(cur.drop_last() =~= pre);
        }
        match flag_kind_exec(&t) {
            Some(Flag::DryRun) => cli.dry_run = true,
            Some(Flag::Force) => cli.force = true,
            Some(Flag::NoPrefixes) => cli.no_prefixes = true,
            Some(Flag::Full) => cli.full = true,
            Some(Flag::Verbose) => cli.verbose = true,
            Some(Flag::Header) => cli.header = true,
            Some(Flag::NoHeader) => cli.no_header = true,
            Some(Flag::Json) => cli.json = true,
            None => {
                let ghost before = texts(cleaned@);
                cleaned.push(rest[i].clone());
                assert(texts(cleaned@) =~= before.push(t@));
            },
        }
        i += 1;
    }
    assert(r0.take(rest.len() as int) =~= r0);
    cli.rest = cleaned;
}

// ── the subcommand ─────────────────────────────────────────────────────────

/// Whether the arguments ask for the endpoint listing (`sq endpoints`).
pub fn is_endpoints_command(rest: &Vec<String>) -> (r: bool)
    ensures
        r == (rest@.len() > 0 && rest@[0]@ == "endpoints"@),
{
    if rest.len() == 0 {
        return false;
    }
    let c = chars_of(rest[0].as_str());
    chars_eq_str(&c, "endpoints")
}

/// The argument at index `i`; a missing one is reported against the
/// subcommand `rest[0]`.
pub fn arg(rest: &Vec<String>, i: usize) -> (r: Result<String, SqError>)
    requires
        rest@.len() > 0,
    ensures
        i < rest@.len() ==> (r matches Ok(a) && a@ == rest@[i as int]@),
        i >= rest@.len() ==> (r matches Err(SqError::MissingArgument { command }) && command@
            == rest@[0]@),
{
    if i < rest.len() {
        Ok(rest[i].clone())
    } else {
        Err(SqError::MissingArgument { command: rest[0].clone() })
    }
}

/// What the command does once the endpoint is resolved.
pub enum Plan {
    /// Run this read query (a built-in).
    Read(String),
    /// Run the update given by these arguments (or a file, or stdin).
    Update(Vec<String>),
    /// Run the read query given by these arguments (or a file, or stdin).
    Query(Vec<String>),
}

/// The built-ins that take a node (or class) argument.
pub open spec fn takes_node(c: Seq<char>) -> bool {
    c == "count"@ || c == "about"@ || c == "desc"@ || c == "preds"@
}

/// The query of a built-in that takes a node.
pub open spec fn node_query(c: Seq<char>, x: Seq<char>, map: Map<Seq<char>, Seq<char>>) -> Seq<char> {
    if c == "count"@ {
        count_text(x, map)
    } else if c == "about"@ {
        about_text(x, map)
    } else if c == "desc"@ {
        desc_text(x, map)
    } else {
        preds_text(x, map)
    }
}

/// The plan for the arguments `rest` with the prefixes `map`.
pub fn plan(rest: &Vec<String>, map: &SortedMap<String>) -> (r: Result<Plan, SqError>)
    ensures
        ({
            let a = texts(rest@);
            if a.len() > 0 && a[0] == "any"@ {
                r matches Ok(Plan::Read(q)) && q@ == any_q_spec(
                    if a.len() > 1 {
                        Some(a[1])
                    } else {
                        None
                    },
                )
            } else if a.len() > 0 && a[0] == "graphs"@ {
                r matches Ok(Plan::Read(q)) && q@ == graphs_text()
            } else if a.len() > 0 && a[0] == "classes"@ {
                r matches Ok(Plan::Read(q)) && q@ == classes_text()
            } else if a.len() > 0 && takes_node(a[0]) {
                if a.len() > 1 {
                    r matches Ok(Plan::Read(q)) && q@ == node_query(a[0], a[1], map@)
                } else {
                    r matches Err(SqError::MissingArgument { command }) && command@ == a[0]
                }
            } else if a.len() > 0 && a[0] == "update"@ {
                r matches Ok(Plan::Update(parts)) && texts(parts@) == a.skip(1)
            } else {
                r matches Ok(Plan::Query(parts)) && texts(parts@) == a
            }
        }),
        texts(rest@).len() > 1 && texts(rest@)[0] == "count"@ ==> (r matches Ok(Plan::Read(q)) && q@
            == count_text(texts(rest@)[1], map@)),
        texts(rest@).len() > 1 && texts(rest@)[0] == "about"@ ==> (r matches Ok(Plan::Read(q)) && q@
            == about_text(texts(rest@)[1], map@)),
        texts(rest@).len() > 1 && texts(rest@)[0] == "desc"@ ==> (r matches Ok(Plan::Read(q)) && q@
            == desc_text(texts(rest@)[1], map@)),
        texts(rest@).len() > 1 && texts(rest@)[0] == "preds"@ ==> (r matches Ok(Plan::Read(q)) && q@
            == preds_text(texts(rest@)[1], map@)),
{
    proof {
        reveal_strlit("any");
        reveal_strlit("graphs");
        reveal_strlit("classes");
        reveal_strlit("count");
        reveal_strlit("about");
        reveal_strlit("desc");
        reveal_strlit("preds");
        reveal_strlit("update");
        assert("about"@[0] != "count"@[0]);
        assert("preds"@[0] != "count"@[0]);
        assert("preds"@[0] != "about"@[0]);
    }
    let ghost a = texts(rest@);
    if rest.len() == 0 {
        let parts: Vec<String> = Vec::new();
        assert(texts(parts@) =~= a);
        return Ok(Plan::Query(parts));
    }
    let c = chars_of(rest[0].as_str());
    assert(a[0] == c@);
    if chars_eq_str(&c, "any") {
        let limit = if rest.len() > 1 {
            assert(a[1] == rest@[1]@);
            Some(rest[1].as_str())
        } else {
            None
        };
        Ok(Plan::Read(any_q(limit)))
    } else if chars_eq_str(&c, "graphs") {
        Ok(Plan::Read(graphs_q()))
    } else if chars_eq_str(&c, "classes") {
        Ok(Plan::Read(classes_q()))
    } else if chars_eq_str(&c, "count") || chars_eq_str(&c, "about") || chars_eq_str(&c, "desc")
        || chars_eq_str(&c, "preds") {
        let x = arg(rest, 1)?;
        let q = if chars_eq_str(&c, "count") {
            count_q(x.as_str(), map)
        } else if chars_eq_str(&c, "about") {
            about_q(x.as_str(), map)
        } else if chars_eq_str(&c, "desc") {
            desc_q(x.as_str(), map)
        } else {
            preds_q(x.as_str(), map)
        };
        Ok(Plan::Read(q))
    } else if chars_eq_str(&c, "update") {
        let mut parts: Vec<String> = Vec::new();
        let mut i: usize = 1;
        while i < rest.len()
            invariant
                a == texts(rest@),
                1 <= i <= rest.len(),
                texts(parts@) == a.subrange(1, i as int),
            decreases rest.len() - i,
        {
            let ghost before = texts(parts@);
            parts.push(rest[i].clone());
            assert(texts(parts@) =~= before.push(a[i as int]));
            assert(texts(parts@) =~= a.subrange(1, i + 1));
            i += 1;
        }
        assert(a.subrange(1, rest.len() as int) =~= a.skip(1));
        Ok(Plan::Update(parts))
    } else {
        let mut parts: Vec<String> = Vec::new();
        let mut i: usize = 0;
        while i < rest.len()
            invariant
                a == texts(rest@),
                i <= rest.len(),
                texts(parts@) == a.take(i as int),
            decreases rest.len() - i,
        {
            let ghost before = texts(parts@);
            parts.push(rest[i].clone());
            assert(texts(parts@) =~= before.push(a[i as int]));
            assert(texts(parts@) =~= a.take(i + 1));
            i += 1;
        }
        assert(a.take(rest.len() as int) =~= a);
        Ok(Plan::Query(parts))
    }
}

// ── the query text ─────────────────────────────────────────────────────────

/// The characters of each string, in order.
pub fn char_vecs(ss: &Vec<String>) -> (r: Vec<Vec<char>>)
    ensures
        views(r@) == texts(ss@),
{
    let mut out: Vec<Vec<char>> = Vec::new();
    let mut i: usize = 0;
    while i < ss.len()
        invariant
            i <= ss.len(),
            views(out@) == texts(ss@).take(i as int),
        decreases ss.len() - i,
    {
        let c = chars_of(ss[i].as_str());
        let ghost before = views(out@);
        out.push(c);
        assert(views(out@) =~= before.push(c@));
        assert(views(out@) =~= texts(ss@).take(i + 1));
        i += 1;
    }
    assert(texts(ss@).take(ss.len() as int) =~= texts(ss@));
    out
}

/// The query given on the command line: the arguments joined by single
/// spaces, when there are any.
pub fn inline_query(parts: &Vec<String>) -> (r: Option<String>)
    ensures
        parts@.len() == 0 ==> r is None,
        parts@.len() > 0 ==> (r matches Some(q) && q@ == join(texts(parts@), " "@)),
{
    if parts.len() == 0 {
        return None;
    }
    let ps = char_vecs(parts);
    let sep = chars_of(" ");
    let joined = join_chars(&ps, &sep);
    Some(string_of(&joined))
}

/// A query read from a file is taken as it is; one read from standard
/// input must hold more than whitespace.
pub fn read_query(text: String, from_stdin: bool) -> (r: Result<String, SqError>)
    ensures
        from_stdin && trim(text@).len() == 0 ==> (r matches Err(e) && e is NoQuery),
        !(from_stdin && trim(text@).len() == 0) ==> (r matches Ok(q) && q@ == text@),
{
    if from_stdin {
        let c = chars_of(text.as_str());
        let t = trim_chars(&c);
        if t.len() == 0 {
            return Err(SqError::NoQuery);
        }
    }
    Ok(text)
}

// ── output choices ─────────────────────────────────────────────────────────

/// The output format: `json` with `-j`, else the `-r` format lower-cased,
/// else `text` on a terminal and `tsv` in a pipe.
pub open spec fn format_spec(json: bool, results: Option<Seq<char>>, stdout_is_tty: bool) -> Seq<char> {
    if json {
        "json"@
    } else {
        match results {
            Some(r) => lower(r),
            None => if stdout_is_tty {
                "text"@
            } else {
                "tsv"@
            },
        }
    }
}

/// The output format for `cli`, given whether standard output is a terminal.
pub fn resolve_format(cli: &Cli, stdout_is_tty: bool) -> (r: String)
    ensures
        r@ == format_spec(
            cli.json,
            match cli.results {
                Some(f) => Some(f@),
                None => None,
            },
            stdout_is_tty,
        ),
{
    if cli.json {
        return "json".to_owned();
    }
    if let Some(r) = &cli.results {
        let c = chars_of(r.as_str());
        let l = lower_chars(&c);
        return string_of(&l);
    }
    if stdout_is_tty {
        "text".to_owned()
    } else {
        "tsv".to_owned()
    }
}

/// Whether to colorize: `--color never`/`always` decide; otherwise only text
/// output on a terminal, and only when `NO_COLOR` is not set.
pub fn color_enabled(cli: &Cli, format: &str, stdout_is_tty: bool, no_color_set: bool) -> (r: bool)
    ensures
        r == (if cli.color@ == "never"@ {
            false
        } else if cli.color@ == "always"@ {
            true
        } else {
            format@ == "text"@ && stdout_is_tty && !no_color_set
        }),
{
    let c = chars_of(cli.color.as_str());
    if chars_eq_str(&c, "never") {
        false
    } else if chars_eq_str(&c, "always") {
        true
    } else {
        let f = chars_of(format);
        chars_eq_str(&f, "text") && stdout_is_tty && !no_color_set
    }
}

/// The table width: the terminal's width when one was detected and it is
/// not zero, else 100.
pub fn term_width(detected: Option<u16>) -> (r: u16)
    ensures
        r == (match detected {
            Some(w) if w > 0 => w,
            _ => 100,
        }),
{
    match detected {
        Some(w) if w > 0 => w,
        _ => 100,
    }
}

} // verus!
