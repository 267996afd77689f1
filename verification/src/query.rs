//! Query text: what kind of SPARQL request a text is, the guard against
//! unbounded destructive updates, and the built-in query templates.
use vstd::prelude::*;
use crate::map::SortedMap;
use crate::scan::{
    matches_at, contains, contains_str, find_exec, find_from, first_index, first_index_exec, join, join_chars, lemma_find_from, lemma_first_index, lemma_skip_ws_bounds, lemma_word_end_bounds, skip_ws, skip_ws_exec, views, word_end, word_end_exec, words, words_of,
};
use crate::text::{append_chars, append_str, chars_eq_str, chars_of, is_ws, slice_of, string_of, upper, upper_chars};

verus! {

/// The kind of request a text is.
#[derive(Debug, Clone, Copy, PartialEq, Eq, Structural)]
pub enum Kind {
    Select,
    Ask,
    /// CONSTRUCT / DESCRIBE
    Graph,
    Update,
    Unknown,
}

/// The kind that a leading keyword (already upper-cased) announces.
pub open spec fn keyword_kind(w: Seq<char>) -> Kind {
    if w == "SELECT"@ {
        Kind::Select
    } else if w == "ASK"@ {
        Kind::Ask
    } else if w == "CONSTRUCT"@ || w == "DESCRIBE"@ {
        Kind::Graph
    } else if w == "INSERT"@ || w == "DELETE"@ || w == "LOAD"@ || w == "CLEAR"@ || w == "DROP"@
        || w == "CREATE"@ || w == "ADD"@ || w == "MOVE"@ || w == "COPY"@ || w == "WITH"@ {
        Kind::Update
    } else {
        Kind::Unknown
    }
}

/// The end of the line that holds `pos`: the index of the next newline at or
/// after `pos`, or the end of `s`.
pub open spec fn line_end(s: Seq<char>, pos: int) -> int {
    match first_index(s, '\n', pos) {
        Some(e) => e,
        None => s.len() as int,
    }
}

/// The kind of `s` judged from index `pos` on. Whitespace is skipped, a `#`
/// comment runs to the end of its line, and a `PREFIX` or `BASE` declaration
/// (its first word, upper-cased) runs to its closing `>`, or to the end of
/// its line when no `>` follows on that line; the first other word decides,
/// upper-cased.
pub open spec fn kind_from(s: Seq<char>, pos: int) -> Kind
    decreases s.len() + 1 - pos,
{
    if pos < 0 {
        Kind::Unknown
    } else {
        let a = skip_ws(s, pos, s.len() as int);
        if a >= s.len() {
            Kind::Unknown
        } else if s[a] == '#' {
            proof {
                lemma_skip_ws_bounds(s, pos, s.len() as int);
                lemma_first_index(s, '\n', a);
            }
            kind_from(s, line_end(s, a) + 1)
        } else {
            let w = word_end(s, a, s.len() as int);
            let head = upper(s.subrange(a, w));
            if head == "PREFIX"@ || head == "BASE"@ {
                proof {
                    lemma_skip_ws_bounds(s, pos, s.len() as int);
                    lemma_word_end_bounds(s, a, s.len() as int);
                    lemma_first_index(s, '>', w);
                    lemma_first_index(s, '\n', w);
                }
                let e = line_end(s, w);
                match first_index(s, '>', w) {
                    Some(g) => if g < e {
                        kind_from(s, g + 1)
                    } else {
                        kind_from(s, e + 1)
                    },
                    None => kind_from(s, e + 1),
                }
            } else {
                keyword_kind(head)
            }
        }
    }
}

/// The kind of the query text `q`.
pub open spec fn query_kind_spec(q: Seq<char>) -> Kind {
    kind_from(q, 0)
}

// ── classification after a prefix ─────────────────────────────────────────

/// Searching for a character after a prefix `d` finds what searching the
/// rest finds, shifted by `d`'s length.
proof fn lemma_first_index_shift(d: Seq<char>, r: Seq<char>, c: char, k: int)
    requires
        0 <= k,
    ensures
        first_index(d + r, c, d.len() + k) == match first_index(r, c, k) {
            Some(i) => Some(i + d.len()),
            None => None,
        },
    decreases r.len() - k,
{
    if k < r.len() && r[k] != c {
        assert((d + r)[d.len() + k] == r[k]);
        lemma_first_index_shift(d, r, c, k + 1);
    } else if k < r.len() {
        assert((d + r)[d.len() + k] == r[k]);
    }
}

/// `skip_ws` after a prefix `d` is `skip_ws` on the rest, shifted.
proof fn lemma_skip_ws_shift(d: Seq<char>, r: Seq<char>, a: int, b: int)
    requires
        0 <= a <= b <= r.len(),
    ensures
        skip_ws(d + r, d.len() + a, d.len() + b) == skip_ws(r, a, b) + d.len(),
    decreases b - a,
{
    if a < b {
        assert((d + r)[d.len() + a] == r[a]);
        if is_ws(r[a]) {
            lemma_skip_ws_shift(d, r, a + 1, b);
        }
    }
}

/// `word_end` after a prefix `d` is `word_end` on the rest, shifted.
proof fn lemma_word_end_shift(d: Seq<char>, r: Seq<char>, a: int, b: int)
    requires
        0 <= a <= b <= r.len(),
    ensures
        word_end(d + r, d.len() + a, d.len() + b) == word_end(r, a, b) + d.len(),
    decreases b - a,
{
    if a < b {
        assert((d + r)[d.len() + a] == r[a]);
        if !is_ws(r[a]) {
            lemma_word_end_shift(d, r, a + 1, b);
        }
    }
}

/// Text in front does not change how the rest is classified from its
/// own start on.
proof fn lemma_kind_shift(d: Seq<char>, r: Seq<char>, k: int)
    requires
        0 <= k,
    ensures
        kind_from(d + r, d.len() + k) == kind_from(r, k),
    decreases r.len() + 1 - k,
{
    let s = d + r;
    let o = d.len() as int;
    if k <= r.len() {
        lemma_skip_ws_shift(d, r, k, r.len() as int);
        lemma_skip_ws_bounds(r, k, r.len() as int);
        let a = skip_ws(r, k, r.len() as int);
        assert(skip_ws(s, o + k, s.len() as int) == a + o);
        if a < r.len() {
            assert(s[o + a] == r[a]);
            if r[a] == '#' {
                lemma_first_index_shift(d, r, '\n', a);
                lemma_first_index(r, '\n', a);
                assert(line_end(s, o + a) == line_end(r, a) + o);
                lemma_kind_shift(d, r, line_end(r, a) + 1);
            } else {
                lemma_word_end_shift(d, r, a, r.len() as int);
                lemma_word_end_bounds(r, a, r.len() as int);
                let w = word_end(r, a, r.len() as int);
                assert(word_end(s, o + a, s.len() as int) == w + o);
                assert(s.subrange(o + a, o + w) =~= r.subrange(a, w));
                lemma_first_index_shift(d, r, '>', w);
                lemma_first_index(r, '>', w);
                lemma_first_index_shift(d, r, '\n', w);
                lemma_first_index(r, '\n', w);
                assert(line_end(s, o + w) == line_end(r, w) + o);
                lemma_kind_shift(d, r, line_end(r, w) + 1);
                match first_index(r, '>', w) {
                    Some(g) => {
                        lemma_kind_shift(d, r, g + 1);
                    },
                    None => {},
                }
            }
        }
    } else {
        assert(skip_ws(s, o + k, s.len() as int) == o + k);
        assert(skip_ws(r, k, r.len() as int) == k);
    }
}

/// Whitespace at `pos` changes nothing: classification from `pos` is
/// classification from the next index.
proof fn lemma_kind_ws_step(s: Seq<char>, pos: int)
    requires
        0 <= pos < s.len(),
        is_ws(s[pos]),
    ensures
        kind_from(s, pos) == kind_from(s, pos + 1),
{
    assert(skip_ws(s, pos, s.len() as int) == skip_ws(s, pos + 1, s.len() as int));
}

/// The declaration line `d` is skipped: it starts with `PREFIX `, its first
/// `>` after that word is its second-to-last character, and it ends with its
/// only newline; classification goes on after it.
pub proof fn lemma_kind_skips_decl(d: Seq<char>, r: Seq<char>)
    requires
        upper("PREFIX"@) == "PREFIX"@,
        d.len() >= 8,
        d.subrange(0, 7) == "PREFIX "@,
        d[d.len() - 2] == '>',
        d[d.len() - 1] == '\n',
        forall|i: int| 6 <= i < d.len() - 2 ==> #[trigger] d[i] != '>' && d[i] != '\n',
    ensures
        kind_from(d + r, 0) == kind_from(r, 0),
{
    reveal_strlit("PREFIX ");
    reveal_strlit("PREFIX");
    let s = d + r;
    let n = d.len() as int;
    assert(forall|i: int| 0 <= i < n ==> #[trigger] s[i] == d[i]);
    assert(d[0] == d.subrange(0, 7)[0]);
    assert(d[6] == d.subrange(0, 7)[6]);
    assert(skip_ws(s, 0, s.len() as int) == 0);
    lemma_word_end_bounds(s, 0, s.len() as int);
    let we = word_end(s, 0, s.len() as int);
    assert forall|i: int| 0 <= i < 6 implies !is_ws(#[trigger] s[i]) by {
        assert(s[i] == d.subrange(0, 7)[i]);
    }
    assert(is_ws(s[6]));
    assert(we == 6);
    assert(s.subrange(0, 6) =~= "PREFIX"@) by {
        assert forall|i: int| 0 <= i < 6 implies s.subrange(0, 6)[i] == "PREFIX"@[i] by {
            assert(s[i] == d.subrange(0, 7)[i]);
        }
    }
    lemma_first_index(s, '>', 6);
    assert(first_index(s, '>', 6) == Some(n - 2)) by {
        match first_index(s, '>', 6) {
            Some(g) => {
                if g < n - 2 {
                    assert(s[g] == d[g]);
                } else if g > n - 2 {
                    assert(s[n - 2] == '>');
                }
            },
            None => {
                assert(s[n - 2] == '>');
            },
        }
    }
    lemma_first_index(s, '\n', 6);
    assert(first_index(s, '\n', 6) == Some(n - 1)) by {
        match first_index(s, '\n', 6) {
            Some(g) => {
                if g < n - 1 {
                    assert(s[g] == d[g]);
                    if g == n - 2 {
                        assert(s[n - 2] == '>');
                    }
                } else if g > n - 1 {
                    assert(s[n - 1] == '\n');
                }
            },
            None => {
                assert(s[n - 1] == '\n');
            },
        }
    }
    assert(kind_from(s, 0) == kind_from(s, n - 1));
    lemma_kind_ws_step(s, n - 1);
    lemma_kind_shift(d, r, 0);
}

/// The kind that an upper-cased keyword announces.
fn keyword_kind_exec(w: &Vec<char>) -> (k: Kind)
    ensures
        k == keyword_kind(w@),
{
    if chars_eq_str(w, "SELECT") {
        Kind::Select
    } else if chars_eq_str(w, "ASK") {
        Kind::Ask
    } else if chars_eq_str(w, "CONSTRUCT") || chars_eq_str(w, "DESCRIBE") {
        Kind::Graph
    } else if chars_eq_str(w, "INSERT") || chars_eq_str(w, "DELETE") || chars_eq_str(w, "LOAD")
        || chars_eq_str(w, "CLEAR") || chars_eq_str(w, "DROP") || chars_eq_str(w, "CREATE")
        || chars_eq_str(w, "ADD") || chars_eq_str(w, "MOVE") || chars_eq_str(w, "COPY")
        || chars_eq_str(w, "WITH") {
        Kind::Update
    } else {
        Kind::Unknown
    }
}

/// Find the first significant keyword, skipping PREFIX/BASE decls and comments.
pub fn query_kind(q: &str) -> (k: Kind)
    ensures
        k == query_kind_spec(q@),
{
    let s = chars_of(q);
    let n = s.len();
    let mut pos: usize = 0;
    loop
        invariant
            s@ == q@,
            n == s@.len(),
            pos <= n,
            query_kind_spec(q@) == kind_from(q@, pos as int),
        decreases n - pos,
    {
        let a = skip_ws_exec(&s, pos, n);
        if a >= n {
            return Kind::Unknown;
        }
        if s[a] == '#' {
            proof {
                lemma_first_index(s@, '\n', a as int);
            }
            match first_index_exec(&s, '\n', a) {
                Some(e) => {
                    pos = e + 1;
                },
                None => {
                    assert(kind_from(q@, n + 1) == Kind::Unknown);
                    return Kind::Unknown;
                },
            }
        } else {
            let w = word_end_exec(&s, a, n);
            let word = slice_of(&s, a, w);
            let head = upper_chars(&word);
            if chars_eq_str(&head, "PREFIX") || chars_eq_str(&head, "BASE") {
                proof {
                    lemma_first_index(s@, '>', w as int);
                    lemma_first_index(s@, '\n', w as int);
                }
                let e = match first_index_exec(&s, '\n', w) {
                    Some(e) => e,
                    None => n,
                };
                let close = match first_index_exec(&s, '>', w) {
                    Some(g) => if g < e {
                        Some(g)
                    } else {
                        None
                    },
                    None => None,
                };
                match close {
                    Some(g) => {
                        pos = g + 1;
                    },
                    None => {
                        if e >= n {
                            assert(kind_from(q@, n + 1) == Kind::Unknown);
                            return Kind::Unknown;
                        }
                        pos = e + 1;
                    },
                }
            } else {
                return keyword_kind_exec(&head);
            }
        }
    }
}

// ── the destructive-update guard ───────────────────────────────────────────

/// The update text with its words joined by single spaces, upper-cased.
pub open spec fn flatten(u: Seq<char>) -> Seq<char> {
    upper(join(words(u), seq![' ']))
}

/// The whitespace-separated tokens of a `DELETE WHERE` pattern, `.` tokens
/// aside, are all variables, and there is at least one.
pub open spec fn unbounded(inner: Seq<char>) -> bool {
    let ws = words(inner);
    &&& exists|i: int| 0 <= i < ws.len() && #[trigger] ws[i] != "."@
    &&& forall|i: int|
        0 <= i < ws.len() && #[trigger] ws[i] != "."@ ==> ws[i].len() > 0 && ws[i][0] == '?'
}

/// The first of the always-refused operations that `flat` contains.
pub open spec fn named_pattern(flat: Seq<char>) -> Option<Seq<char>> {
    if contains(flat, "DROP ALL"@) {
        Some("DROP ALL"@)
    } else if contains(flat, "CLEAR ALL"@) {
        Some("CLEAR ALL"@)
    } else if contains(flat, "DROP DEFAULT"@) {
        Some("DROP DEFAULT"@)
    } else if contains(flat, "CLEAR DEFAULT"@) {
        Some("CLEAR DEFAULT"@)
    } else {
        None
    }
}

/// The index of the `}` that closes a group open to `depth` levels, scanning
/// `s` from index `i`: each `{` opens one more level, each `}` closes one.
pub open spec fn close_from(s: Seq<char>, i: int, depth: int) -> Option<int>
    decreases s.len() - i,
{
    if i < 0 || i >= s.len() {
        None
    } else if s[i] == '{' {
        close_from(s, i + 1, depth + 1)
    } else if s[i] == '}' {
        if depth <= 1 {
            Some(i)
        } else {
            close_from(s, i + 1, depth - 1)
        }
    } else {
        close_from(s, i + 1, depth)
    }
}

/// After the `DELETE WHERE` at index `idx` of `flat`: the rest of the text,
/// the index of its first `{` and the index of the `}` that closes it, when
/// both braces exist.
pub open spec fn braces_after(flat: Seq<char>, idx: int) -> Option<(Seq<char>, int, int)> {
    let after = flat.skip(idx + "DELETE WHERE"@.len());
    match first_index(after, '{', 0) {
        Some(o) => match close_from(after, o + 1, 1) {
            Some(c) => Some((after, o, c)),
            None => None,
        },
        None => None,
    }
}

/// The `DELETE WHERE` at index `idx` of `flat` has a pattern, and it is
/// unbounded.
pub open spec fn unbounded_at(flat: Seq<char>, idx: int) -> bool {
    match braces_after(flat, idx) {
        Some((after, o, c)) => unbounded(after.subrange(o + 1, c)),
        None => false,
    }
}

/// Some `DELETE WHERE` in `flat` at or after index `from` has an unbounded
/// pattern.
pub open spec fn any_unbounded(flat: Seq<char>, from: int) -> bool
    decreases flat.len() + 1 - from,
{
    if from < 0 {
        false
    } else {
        match find_from(flat, "DELETE WHERE"@, from) {
            Some(idx) => {
                proof {
                    lemma_find_from(flat, "DELETE WHERE"@, from);
                }
                unbounded_at(flat, idx) || any_unbounded(flat, idx + 1)
            },
            None => false,
        }
    }
}

/// `close_from` finds a `}` at or after `i`.
pub proof fn lemma_close_from(s: Seq<char>, i: int, depth: int)
    ensures
        match close_from(s, i, depth) {
            Some(c) => 0 <= i <= c < s.len() && s[c] == '}',
            None => true,
        },
    decreases s.len() - i,
{
    if 0 <= i < s.len() {
        if s[i] == '{' {
            lemma_close_from(s, i + 1, depth + 1);
        } else if s[i] == '}' {
            if depth > 1 {
                lemma_close_from(s, i + 1, depth - 1);
            }
        } else {
            lemma_close_from(s, i + 1, depth);
        }
    }
}

/// What the guard reports for the update text `u`: the refused operation it
/// contains, else an unbounded `DELETE WHERE` (any of them), else nothing.
pub open spec fn destructive_spec(u: Seq<char>) -> Option<Seq<char>> {
    let flat = flatten(u);
    match named_pattern(flat) {
        Some(p) => Some(p),
        None => if any_unbounded(flat, 0) {
            Some("unbounded DELETE WHERE"@)
        } else {
            None
        },
    }
}

/// The words of `u` joined by single spaces, upper-cased.
fn flatten_exec(u: &str) -> (r: Vec<char>)
    ensures
        r@ == flatten(u@),
{
    let s = chars_of(u);
    let ws = words_of(&s);
    let sep = vec![' '];
    assert(sep@ =~= seq![' ']);
    let joined = join_chars(&ws, &sep);
    upper_chars(&joined)
}

/// The first always-refused operation in `flat`, if any.
fn named_pattern_exec(flat: &Vec<char>) -> (r: Option<String>)
    ensures
        match r {
            Some(p) => named_pattern(flat@) == Some(p@),
            None => named_pattern(flat@) is None,
        },
{
    if contains_str(flat, "DROP ALL") {
        Some("DROP ALL".to_owned())
    } else if contains_str(flat, "CLEAR ALL") {
        Some("CLEAR ALL".to_owned())
    } else if contains_str(flat, "DROP DEFAULT") {
        Some("DROP DEFAULT".to_owned())
    } else if contains_str(flat, "CLEAR DEFAULT") {
        Some("CLEAR DEFAULT".to_owned())
    } else {
        None
    }
}

/// The index of the `}` that closes a group open to `depth` levels,
/// scanning `v` from `i`.
fn close_from_exec(v: &Vec<char>, i: usize, depth: usize) -> (r: Option<usize>)
    requires
        1 <= depth <= i,
    ensures
        match r {
            Some(c) => close_from(v@, i as int, depth as int) == Some(c as int),
            None => close_from(v@, i as int, depth as int) is None,
        },
{
    let mut j = i;
    let mut d = depth;
    while j < v.len()
        invariant
            i <= j,
            1 <= d <= j,
            close_from(v@, i as int, depth as int) == close_from(v@, j as int, d as int),
        decreases v.len() - j,
    {
        if v[j] == '{' {
            d = d + 1;
        } else if v[j] == '}' {
            if d <= 1 {
                return Some(j);
            }
            d = d - 1;
        }
        j += 1;
    }
    None
}

/// The text after the `DELETE WHERE` at `idx` of `flat` with its first `{`
/// and the `}` that closes it, when both exist.
fn braces_after_exec(flat: &Vec<char>, idx: usize) -> (r: Option<(Vec<char>, usize, usize)>)
    requires
        idx + "DELETE WHERE"@.len() <= flat@.len(),
    ensures
        match r {
            Some((after, o, c)) => braces_after(flat@, idx as int) == Some((after@, o as int, c as int))
                && o < c < after@.len(),
            None => braces_after(flat@, idx as int) is None,
        },
{
    proof {
        reveal_strlit("DELETE WHERE");
    }
    assert("DELETE WHERE"@.len() == 12);
    let n = flat.len();
    assert(idx + 12 <= n);
    let start = idx + 12;
    let after = slice_of(flat, start, flat.len());
    assert(after@ =~= flat@.skip(idx + "DELETE WHERE"@.len()));
    match first_index_exec(&after, '{', 0) {
        Some(o) => {
            proof {
                lemma_first_index(after@, '{', 0);
                lemma_close_from(after@, o + 1, 1);
            }
            match close_from_exec(&after, o + 1, 1) {
                Some(c) => Some((after, o, c)),
                None => None,
            }
        },
        None => None,
    }
}

/// Whether a `DELETE WHERE` pattern is made of variables only.
fn unbounded_exec(inner: &Vec<char>) -> (r: bool)
    ensures
        r == unbounded(inner@),
{
    let ws = words_of(inner);
    let ghost wv = views(ws@);
    let mut any = false;
    let mut all = true;
    let mut i: usize = 0;
    while i < ws.len()
        invariant
            wv == views(ws@),
            wv.len() == ws@.len(),
            wv == words(inner@),
            i <= ws.len(),
            any == exists|j: int| 0 <= j < i && #[trigger] wv[j] != "."@,
            all == forall|j: int|
                0 <= j < i && #[trigger] wv[j] != "."@ ==> wv[j].len() > 0 && wv[j][0] == '?',
        decreases ws.len() - i,
    {
        assert(wv[i as int] == ws@[i as int]@);
        if !chars_eq_str(&ws[i], ".") {
            any = true;
            if !(ws[i].len() > 0 && ws[i][0] == '?') {
                all = false;
            }
        }
        i += 1;
    }
    any && all
}

/// Heuristic guard against catastrophic unbounded writes.
pub fn destructive(u: &str) -> (r: Option<String>)
    ensures
        match r {
            Some(s) => destructive_spec(u@) == Some(s@),
            None => destructive_spec(u@) is None,
        },
{
    let flat = flatten_exec(u);
    if let Some(p) = named_pattern_exec(&flat) {
        return Some(p);
    }
    assert(named_pattern(flat@) is None);
    assert(flatten(u@) == flat@);
    let pat = chars_of("DELETE WHERE");
    proof {
        reveal_strlit("DELETE WHERE");
    }
    assert(pat@.len() == 12);
    let fl = flat.len();
    let mut from: usize = 0;
    while from <= flat.len()
        invariant
            pat@ == "DELETE WHERE"@,
            pat@.len() == 12,
            fl == flat@.len(),
            named_pattern(flat@) is None,
            flatten(u@) == flat@,
            any_unbounded(flat@, 0) == any_unbounded(flat@, from as int),
        decreases flat.len() + 1 - from,
    {
        match find_exec(&flat, &pat, from) {
            None => {
                assert(!any_unbounded(flat@, from as int));
                return None;
            },
            Some(idx) => {
                proof {
                    lemma_find_from(flat@, pat@, from as int);
                    assert(matches_at(flat@, pat@, idx as int));
                }
                assert(idx + pat@.len() <= flat@.len());
                let hit = match braces_after_exec(&flat, idx) {
                    Some((after, o, c)) => {
                        let inner = slice_of(&after, o + 1, c);
                        unbounded_exec(&inner)
                    },
                    None => false,
                };
                assert(hit == unbounded_at(flat@, idx as int));
                assert(any_unbounded(flat@, from as int) == (unbounded_at(flat@, idx as int)
                    || any_unbounded(flat@, idx + 1)));
                if hit {
                    return Some("unbounded DELETE WHERE".to_owned());
                }
                from = idx + 1;
            },
        }
    }
    None
}

/// A `DELETE WHERE` pattern is unbounded exactly when its whitespace-separated
/// tokens other than `.` are all variables (each starts with `?`) and there
/// is at least one such token.
pub proof fn lemma_unbounded_meaning(inner: Seq<char>)
    ensures
        unbounded(inner) <==> ((exists|i: int|
            0 <= i < words(inner).len() && #[trigger] words(inner)[i] != "."@) && (forall|i: int|
            0 <= i < words(inner).len() && #[trigger] words(inner)[i] != "."@ ==> words(inner)[i].len()
                > 0 && words(inner)[i][0] == '?')),
{
}

/// Scanning from `from` finds an unbounded pattern exactly when some
/// `DELETE WHERE` at or after `from` has one.
proof fn lemma_any_unbounded(flat: Seq<char>, from: int)
    requires
        0 <= from,
    ensures
        any_unbounded(flat, from) <==> exists|idx: int|
            from <= idx && #[trigger] matches_at(flat, "DELETE WHERE"@, idx) && unbounded_at(flat, idx),
    decreases flat.len() + 1 - from,
{
    lemma_find_from(flat, "DELETE WHERE"@, from);
    match find_from(flat, "DELETE WHERE"@, from) {
        Some(abs) => {
            lemma_any_unbounded(flat, abs + 1);
            if exists|idx: int|
                from <= idx && #[trigger] matches_at(flat, "DELETE WHERE"@, idx) && unbounded_at(flat, idx) {
                let idx = choose|idx: int|
                    from <= idx && #[trigger] matches_at(flat, "DELETE WHERE"@, idx) && unbounded_at(
                        flat,
                        idx,
                    );
                assert(idx >= abs);
                if idx > abs {
                    assert(abs + 1 <= idx && matches_at(flat, "DELETE WHERE"@, idx) && unbounded_at(flat, idx));
                }
            }
        },
        None => {},
    }
}

/// The guard reports an unbounded `DELETE WHERE` exactly when no always
/// refused operation occurs and some `DELETE WHERE` of the flattened text
/// has a pattern made of variables only; otherwise, with no refused
/// operation either, it reports nothing.
pub proof fn lemma_destructive_unbounded(u: Seq<char>)
    ensures
        destructive_spec(u) == Some("unbounded DELETE WHERE"@) <==> (named_pattern(flatten(u)) is None
            && exists|idx: int|
            #[trigger] matches_at(flatten(u), "DELETE WHERE"@, idx) && unbounded_at(flatten(u), idx)),
        named_pattern(flatten(u)) is None && !(exists|idx: int|
            #[trigger] matches_at(flatten(u), "DELETE WHERE"@, idx) && unbounded_at(flatten(u), idx))
            ==> destructive_spec(u) is None,
{
    reveal_strlit("unbounded DELETE WHERE");
    reveal_strlit("DROP ALL");
    reveal_strlit("CLEAR ALL");
    reveal_strlit("DROP DEFAULT");
    reveal_strlit("CLEAR DEFAULT");
    let flat = flatten(u);
    lemma_any_unbounded(flat, 0);
    if exists|idx: int| #[trigger] matches_at(flat, "DELETE WHERE"@, idx) && unbounded_at(flat, idx) {
        let idx = choose|idx: int| #[trigger] matches_at(flat, "DELETE WHERE"@, idx) && unbounded_at(flat, idx);
        assert(0 <= idx);
    }
    assert("DROP ALL"@.len() != "unbounded DELETE WHERE"@.len());
    assert("CLEAR ALL"@.len() != "unbounded DELETE WHERE"@.len());
    assert("DROP DEFAULT"@.len() != "unbounded DELETE WHERE"@.len());
    assert("CLEAR DEFAULT"@.len() != "unbounded DELETE WHERE"@.len());
}

// ── numbers ────────────────────────────────────────────────────────────────

/// ASCII decimal digits.
pub open spec fn is_digit(c: char) -> bool {
    '0' <= c && c <= '9'
}

/// The value of a decimal digit.
pub open spec fn digit_value(c: char) -> nat {
    (c as int - '0' as int) as nat
}

/// The value of a string of decimal digits.
pub open spec fn digits_value(s: Seq<char>) -> nat
    decreases s.len(),
{
    if s.len() == 0 {
        0
    } else {
        digits_value(s.drop_last()) * 10 + digit_value(s.last())
    }
}

/// The digits part of a number: the text after a leading `+`, if there is
/// one and something follows it.
pub open spec fn digits_part(s: Seq<char>) -> Seq<char> {
    if s.len() > 1 && s[0] == '+' {
        s.drop_first()
    } else {
        s
    }
}

/// Every character is a decimal digit.
pub open spec fn all_digits(d: Seq<char>) -> bool {
    forall|i: int| 0 <= i < d.len() ==> is_digit(#[trigger] d[i])
}

/// What `str::parse::<u64>` accepts: an optional `+` before at least one
/// decimal digit, and a value that fits in 64 bits.
pub open spec fn parse_u64_spec(s: Seq<char>) -> Option<u64> {
    let d = digits_part(s);
    if d.len() > 0 && all_digits(d) && digits_value(d) <= u64::MAX {
        Some(digits_value(d) as u64)
    } else {
        None
    }
}

/// A prefix of a digit string has no larger value than the whole.
proof fn lemma_digits_grow(d: Seq<char>, k: int)
    requires
        0 <= k <= d.len(),
    ensures
        digits_value(d.take(k)) <= digits_value(d),
    decreases d.len() - k,
{
    if k < d.len() {
        lemma_digits_grow(d, k + 1);
        assert(d.take(k + 1).drop_last() =~= d.take(k));
    } else {
        assert(d.take(k) =~= d);
    }
}

/// `s` parsed as a `u64`, as `str::parse::<u64>` does.
pub fn parse_u64(s: &str) -> (r: Option<u64>)
    ensures
        r == parse_u64_spec(s@),
{
    let v = chars_of(s);
    let start: usize = if v.len() > 1 && v[0] == '+' {
        1
    } else {
        0
    };
    let ghost d = digits_part(v@);
    assert(d =~= v@.skip(start as int));
    if start == v.len() {
        return None;
    }
    let mut n: u64 = 0;
    let mut i: usize = start;
    while i < v.len()
        invariant
            v@ == s@,
            d == digits_part(v@),
            start <= i <= v.len(),
            d == v@.skip(start as int),
            forall|k: int| 0 <= k < i - start ==> is_digit(#[trigger] d[k]),
            n == digits_value(d.take(i - start)),
        decreases v.len() - i,
    {
        let c = v[i];
        assert(d[i - start] == c);
        if !('0' <= c && c <= '9') {
            assert(!is_digit(d[i - start]));
            return None;
        }
        let dv: u64 = if c == '0' { 0 } else if c == '1' { 1 } else if c == '2' { 2 } else if c
            == '3' { 3 } else if c == '4' { 4 } else if c == '5' { 5 } else if c == '6' { 6 } else if c
            == '7' { 7 } else if c == '8' { 8 } else { 9 };
        assert(dv == digit_value(c));
        assert(d.take(i - start + 1).drop_last() =~= d.take(i - start));
        let ghost next = digits_value(d.take(i - start + 1));
        assert(next == n * 10 + dv);
        match n.checked_mul(10) {
            None => {
                proof {
                    if all_digits(d) {
                        lemma_digits_grow(d, i - start + 1);
                    }
                }
                return None;
            },
            Some(m) => match m.checked_add(dv) {
                None => {
                    proof {
                        if all_digits(d) {
                            lemma_digits_grow(d, i - start + 1);
                        }
                    }
                    return None;
                },
                Some(t) => {
                    n = t;
                },
            },
        }
        i += 1;
    }
    assert(d.take(i - start) =~= d);
    Some(n)
}

/// The decimal digit character for `d < 10`.
pub open spec fn digit_char(d: nat) -> char {
    if d == 0 { '0' } else if d == 1 { '1' } else if d == 2 { '2' } else if d == 3 { '3' } else if d
        == 4 { '4' } else if d == 5 { '5' } else if d == 6 { '6' } else if d == 7 { '7' } else if d
        == 8 { '8' } else { '9' }
}

/// `n` written in decimal without leading zeros (`Display` for integers).
pub open spec fn decimal(n: nat) -> Seq<char>
    decreases n,
{
    if n < 10 {
        seq![digit_char(n)]
    } else {
        decimal(n / 10).push(digit_char(n % 10))
    }
}

/// A number written in decimal parses back to the same number.
pub proof fn lemma_decimal_parses(n: u64)
    ensures
        parse_u64_spec(decimal(n as nat)) == Some(n),
{
    lemma_decimal_digits(n as nat);
    assert(digits_part(decimal(n as nat)) == decimal(n as nat));
}

/// `decimal(n)` is a non-empty digit string whose value is `n`.
proof fn lemma_decimal_digits(n: nat)
    ensures
        decimal(n).len() > 0,
        all_digits(decimal(n)),
        digits_value(decimal(n)) == n,
    decreases n,
{
    if n >= 10 {
        lemma_decimal_digits(n / 10);
        let d = decimal(n / 10);
        let e = d.push(digit_char(n % 10));
        assert(e.drop_last() =~= d);
        assert(digit_value(digit_char(n % 10)) == n % 10);
        assert(n == (n / 10) * 10 + n % 10) by (nonlinear_arith);
        assert forall|i: int| 0 <= i < e.len() implies is_digit(#[trigger] e[i]) by {
            if i < d.len() {
                assert(e[i] == d[i]);
            }
        }
    } else {
        let e = decimal(n);
        assert(e.drop_last() =~= Seq::<char>::empty());
        assert(digit_value(digit_char(n)) == n);
        assert(digits_value(e) == digits_value(e.drop_last()) * 10 + digit_value(e.last()));
    }
}

/// The digit character for `d < 10`.
fn digit_char_exec(d: u64) -> (c: char)
    requires
        d < 10,
    ensures
        c == digit_char(d as nat),
{
    if d == 0 { '0' } else if d == 1 { '1' } else if d == 2 { '2' } else if d == 3 { '3' } else if d
        == 4 { '4' } else if d == 5 { '5' } else if d == 6 { '6' } else if d == 7 { '7' } else if d
        == 8 { '8' } else { '9' }
}

/// `n` in decimal.
pub fn decimal_chars(n: u64) -> (r: Vec<char>)
    ensures
        r@ == decimal(n as nat),
    decreases n,
{
    if n < 10 {
        let r = vec![digit_char_exec(n)];
        assert(r@ =~= seq![digit_char(n as nat)]);
        r
    } else {
        let mut r = decimal_chars(n / 10);
        r.push(digit_char_exec(n % 10));
        r
    }
}

// ── built-in query templates ───────────────────────────────────────────────

/// What `any_q` sends: `SELECT * WHERE { ?s ?p ?o } LIMIT N`, with N the
/// limit given when it parses as a `u64`, else 20.
pub open spec fn any_q_spec(limit: Option<Seq<char>>) -> Seq<char> {
    let n: u64 = match limit {
        Some(l) => match parse_u64_spec(l) {
            Some(n) => n,
            None => 20,
        },
        None => 20,
    };
    "SELECT * WHERE { ?s ?p ?o } LIMIT "@ + decimal(n as nat)
}

/// `sq any [N]` — peek at N arbitrary triples (default 20).
pub fn any_q(limit: Option<&str>) -> (r: String)
    ensures
        r@ == any_q_spec(match limit {
            Some(l) => Some(l@),
            None => None,
        }),
{
    let n: u64 = match limit {
        Some(l) => match parse_u64(l) {
            Some(n) => n,
            None => 20,
        },
        None => 20,
    };
    let mut out = chars_of("SELECT * WHERE { ?s ?p ?o } LIMIT ");
    let d = decimal_chars(n);
    append_chars(&mut out, &d);
    string_of(&out)
}

/// `sq graphs`: named graphs with their triple counts.
pub fn graphs_q() -> (r: String)
    ensures
        r@ == graphs_text(),
{
    "SELECT ?graph (COUNT(*) AS ?triples) WHERE { GRAPH ?graph { ?s ?p ?o } } GROUP BY ?graph ORDER BY DESC(?triples)".to_owned()
}

/// `sq classes`: classes with their instance counts.
pub fn classes_q() -> (r: String)
    ensures
        r@ == classes_text(),
{
    "SELECT ?class (COUNT(?s) AS ?n) WHERE { ?s a ?class } GROUP BY ?class ORDER BY DESC(?n)".to_owned()
}

/// A text already written as an IRI term: `<` first and `>` last.
pub open spec fn bracketed(x: Seq<char>) -> bool {
    x.len() >= 2 && x[0] == '<' && x[x.len() - 1] == '>'
}

/// The SPARQL term for a user-supplied node: an IRI term already in angle
/// brackets as given; a full IRI (it contains `://`) in angle brackets; a prefixed name whose prefix (before the first `:`)
/// the map knows, expanded to `<namespace local>`; anything else as given.
pub open spec fn expand_spec(x: Seq<char>, map: Map<Seq<char>, Seq<char>>) -> Seq<char> {
    if bracketed(x) {
        x
    } else if contains(x, "://"@) {
        "<"@ + x + ">"@
    } else {
        match first_index(x, ':', 0) {
            Some(i) => if map.contains_key(x.take(i)) {
                "<"@ + map[x.take(i)] + x.skip(i + 1) + ">"@
            } else {
                x
            },
            None => x,
        }
    }
}

/// Turn a user-supplied node into a SPARQL term. Full IRIs and known curies are
/// expanded to `<...>` (so curies with slashes in the local part, like
/// `clockify:user/abc`, stay valid); unknown curies pass through.
pub fn expand_term(x: &str, map: &SortedMap<String>) -> (r: String)
    ensures
        r@ == expand_spec(x@, map@),
{
    let s = chars_of(x);
    if s.len() >= 2 && s[0] == '<' && s[s.len() - 1] == '>' {
        return x.to_owned();
    }
    if contains_str(&s, "://") {
        let mut out = chars_of("<");
        append_chars(&mut out, &s);
        append_str(&mut out, ">");
        return string_of(&out);
    }
    match first_index_exec(&s, ':', 0) {
        Some(i) => {
            proof {
                lemma_first_index(s@, ':', 0);
            }
            let p = slice_of(&s, 0, i);
            let ps = string_of(&p);
            assert(p@ =~= x@.take(i as int));
            match map.get(ps.as_str()) {
                Some(ns) => {
                    let mut out = chars_of("<");
                    append_str(&mut out, ns.as_str());
                    let local = slice_of(&s, i + 1, s.len());
                    assert(local@ =~= x@.skip(i + 1));
                    append_chars(&mut out, &local);
                    append_str(&mut out, ">");
                    string_of(&out)
                },
                None => x.to_owned(),
            }
        },
        None => x.to_owned(),
    }
}

/// The text of `sq graphs`.
pub open spec fn graphs_text() -> Seq<char> {
    "SELECT ?graph (COUNT(*) AS ?triples) WHERE { GRAPH ?graph { ?s ?p ?o } } GROUP BY ?graph ORDER BY DESC(?triples)"@
}

/// The text of `sq classes`.
pub open spec fn classes_text() -> Seq<char> {
    "SELECT ?class (COUNT(?s) AS ?n) WHERE { ?s a ?class } GROUP BY ?class ORDER BY DESC(?n)"@
}

/// The text of `sq count <class>`.
pub open spec fn count_text(class: Seq<char>, map: Map<Seq<char>, Seq<char>>) -> Seq<char> {
    "SELECT (COUNT(?s) AS ?n) WHERE { ?s a "@ + expand_spec(class, map) + " }"@
}

/// The text of `sq about <node>`.
pub open spec fn about_text(node: Seq<char>, map: Map<Seq<char>, Seq<char>>) -> Seq<char> {
    let t = expand_spec(node, map);
    "SELECT ?dir ?predicate ?object WHERE { { "@ + t
        + " ?predicate ?object BIND(\"out\" AS ?dir) } UNION { ?object ?predicate "@ + t
        + " BIND(\"in\" AS ?dir) } } ORDER BY ?dir ?predicate"@
}

/// The text of `sq desc <node>`.
pub open spec fn desc_text(node: Seq<char>, map: Map<Seq<char>, Seq<char>>) -> Seq<char> {
    let t = expand_spec(node, map);
    "CONSTRUCT { "@ + t + " ?po ?oo . ?si ?pi "@ + t + " . } WHERE { { "@ + t
        + " ?po ?oo } UNION { ?si ?pi "@ + t + " } }"@
}

/// The text of `sq preds <node>`.
pub open spec fn preds_text(node: Seq<char>, map: Map<Seq<char>, Seq<char>>) -> Seq<char> {
    "SELECT ?predicate (COUNT(*) AS ?n) WHERE { "@ + expand_spec(node, map)
        + " ?predicate ?object } GROUP BY ?predicate ORDER BY DESC(?n)"@
}

/// `sq count <class>`: the number of instances of a class.
pub fn count_q(class: &str, map: &SortedMap<String>) -> (r: String)
    ensures
        r@ == count_text(class@, map@),
{
    let mut out = chars_of("SELECT (COUNT(?s) AS ?n) WHERE { ?s a ");
    let t = expand_term(class, map);
    append_str(&mut out, t.as_str());
    append_str(&mut out, " }");
    string_of(&out)
}

/// `sq about <node>`: every triple with the node as subject (`out`) or as
/// object (`in`).
pub fn about_q(node: &str, map: &SortedMap<String>) -> (r: String)
    ensures
        r@ == about_text(node@, map@),
{
    let t = expand_term(node, map);
    let mut out = chars_of("SELECT ?dir ?predicate ?object WHERE { { ");
    append_str(&mut out, t.as_str());
    append_str(&mut out, " ?predicate ?object BIND(\"out\" AS ?dir) } UNION { ?object ?predicate ");
    append_str(&mut out, t.as_str());
    append_str(&mut out, " BIND(\"in\" AS ?dir) } } ORDER BY ?dir ?predicate");
    string_of(&out)
}

/// `sq desc <node>`: the same in- and outgoing triples as a graph
/// (DESCRIBE-style, answered as Turtle).
pub fn desc_q(node: &str, map: &SortedMap<String>) -> (r: String)
    ensures
        r@ == desc_text(node@, map@),
{
    let t = expand_term(node, map);
    let mut out = chars_of("CONSTRUCT { ");
    append_str(&mut out, t.as_str());
    append_str(&mut out, " ?po ?oo . ?si ?pi ");
    append_str(&mut out, t.as_str());
    append_str(&mut out, " . } WHERE { { ");
    append_str(&mut out, t.as_str());
    append_str(&mut out, " ?po ?oo } UNION { ?si ?pi ");
    append_str(&mut out, t.as_str());
    append_str(&mut out, " } }");
    string_of(&out)
}

/// `sq preds <node>`: the predicates used on a node, with usage counts.
pub fn preds_q(node: &str, map: &SortedMap<String>) -> (r: String)
    ensures
        r@ == preds_text(node@, map@),
{
    let mut out = chars_of("SELECT ?predicate (COUNT(*) AS ?n) WHERE { ");
    let t = expand_term(node, map);
    append_str(&mut out, t.as_str());
    append_str(&mut out, " ?predicate ?object } GROUP BY ?predicate ORDER BY DESC(?n)");
    string_of(&out)
}

} // verus!
