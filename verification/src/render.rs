//! Turning SPARQL results into output: terms as text, TSV and CSV lines, the
//! cells of the terminal table, and the plans of the read and update paths.
use vstd::prelude::*;
use crate::cli::{char_vecs, texts, Cli};
use crate::error::SqError;
use crate::map::SortedMap;
use crate::prefixes::{header_for, inject, one_line_decls, pair_views, reverse, shrink, shrink_spec, sort_by_len, swapped};
use crate::query::{destructive, destructive_spec, query_kind, query_kind_spec, Kind};
use crate::scan::{join, join_chars, trim, trim_chars, views};
use crate::text::{append_chars, append_str, chars_eq_str, chars_of, string_of};

verus! {

// ── terms ──────────────────────────────────────────────────────────────────

/// One RDF term of a result row: its type (`uri`, `literal`, `bnode`, ...)
/// and its value.
pub struct Term {
    pub ttype: String,
    pub value: String,
}

/// What a term holds, as text.
pub struct TermView {
    pub ttype: Seq<char>,
    pub value: Seq<char>,
}

impl View for Term {
    type V = TermView;

    open spec fn view(&self) -> TermView {
        TermView { ttype: self.ttype@, value: self.value@ }
    }
}

/// How a term is shown.
#[derive(Debug, Clone, Copy, PartialEq, Eq, Structural)]
pub enum TermKind {
    Uri,
    Literal,
    Bnode,
}

/// A term as text: an IRI shrunk with `rev` unless `full`; a blank node as
/// `_:label`; anything else by its value.
pub open spec fn fmt_term_spec(t: TermView, full: bool, rev: Seq<(Seq<char>, Seq<char>)>) -> (
    Seq<char>,
    TermKind,
) {
    if t.ttype == "uri"@ {
        (
            if full {
                t.value
            } else {
                shrink_spec(t.value, rev)
            },
            TermKind::Uri,
        )
    } else if t.ttype == "bnode"@ {
        ("_:"@ + t.value, TermKind::Bnode)
    } else {
        (t.value, TermKind::Literal)
    }
}

/// The text and kind of a term.
pub fn fmt_term(t: &Term, full: bool, rev: &Vec<(String, String)>) -> (r: (String, TermKind))
    ensures
        (r.0@, r.1) == fmt_term_spec(t@, full, pair_views(rev@)),
{
    let ty = chars_of(t.ttype.as_str());
    if chars_eq_str(&ty, "uri") {
        let s = if full {
            t.value.clone()
        } else {
            shrink(t.value.as_str(), rev)
        };
        (s, TermKind::Uri)
    } else if chars_eq_str(&ty, "bnode") {
        let mut out = chars_of("_:");
        append_str(&mut out, t.value.as_str());
        (string_of(&out), TermKind::Bnode)
    } else {
        (t.value.clone(), TermKind::Literal)
    }
}

/// Tabs, newlines and carriage returns replaced by spaces.
pub open spec fn blank_controls(s: Seq<char>) -> Seq<char> {
    s.map_values(|c: char| if c == '\t' || c == '\n' || c == '\r' { ' ' } else { c })
}

/// A field made plain holds no tab, newline or carriage return, so it never
/// splits a TSV line.
pub proof fn lemma_plain_is_flat(s: Seq<char>)
    ensures
        blank_controls(s).len() == s.len(),
        forall|i: int|
            0 <= i < s.len() ==> #[trigger] blank_controls(s)[i] != '\t' && blank_controls(s)[i]
                != '\n' && blank_controls(s)[i] != '\r',
{
}

/// Blanking keeps the text: it has the same length, every tab, newline and
/// carriage return becomes a space, and every other character stays where
/// it is.
pub proof fn lemma_plain_keeps_text(s: Seq<char>)
    ensures
        blank_controls(s).len() == s.len(),
        forall|i: int|
            0 <= i < s.len() && s[i] != '\t' && s[i] != '\n' && s[i] != '\r' ==> #[trigger] blank_controls(
                s,
            )[i] == s[i],
        forall|i: int|
            0 <= i < s.len() && (s[i] == '\t' || s[i] == '\n' || s[i] == '\r') ==> #[trigger] blank_controls(
                s,
            )[i] == ' ',
{
}

/// A term as one field of a TSV or CSV line: its text with each tab,
/// newline and carriage return made a space, every other character kept.
pub fn plain(t: &Term, full: bool, rev: &Vec<(String, String)>) -> (r: String)
    ensures
        r@ == blank_controls(fmt_term_spec(t@, full, pair_views(rev@)).0),
        ({
            let s = fmt_term_spec(t@, full, pair_views(rev@)).0;
            &&& r@.len() == s.len()
            &&& forall|i: int|
                0 <= i < s.len() && s[i] != '\t' && s[i] != '\n' && s[i] != '\r' ==> #[trigger] r@[i]
                    == s[i]
            &&& forall|i: int|
                0 <= i < s.len() && (s[i] == '\t' || s[i] == '\n' || s[i] == '\r') ==> #[trigger] r@[i]
                    == ' '
        }),
{
    let (s, _) = fmt_term(t, full, rev);
    let c = chars_of(s.as_str());
    let mut out: Vec<char> = Vec::new();
    let mut i: usize = 0;
    while i < c.len()
        invariant
            i <= c.len(),
            out@ == blank_controls(c@.take(i as int)),
        decreases c.len() - i,
    {
        let ch = c[i];
        out.push(if ch == '\t' || ch == '\n' || ch == '\r' { ' ' } else { ch });
        assert(out@ =~= blank_controls(c@.take(i + 1)));
        i += 1;
    }
    assert(c@.take(c.len() as int) =~= c@);
    proof {
        lemma_plain_keeps_text(c@);
    }
    string_of(&out)
}

// ── CSV quoting ────────────────────────────────────────────────────────────

/// A field that holds a comma, a double quote, a newline or a carriage
/// return needs quoting.
pub open spec fn needs_quoting(s: Seq<char>) -> bool {
    exists|i: int| 0 <= i < s.len() && (s[i] == ',' || s[i] == '"' || s[i] == '\n' || s[i] == '\r')
}

/// Every double quote doubled.
pub open spec fn double_quotes(s: Seq<char>) -> Seq<char>
    decreases s.len(),
{
    if s.len() == 0 {
        s
    } else if s.last() == '"' {
        double_quotes(s.drop_last()) + seq!['"', '"']
    } else {
        double_quotes(s.drop_last()).push(s.last())
    }
}

/// A CSV field: quoted, with its double quotes doubled, when it needs it.
pub open spec fn csv_quote_spec(s: Seq<char>) -> Seq<char> {
    if needs_quoting(s) {
        seq!['"'] + double_quotes(s) + seq!['"']
    } else {
        s
    }
}

/// `s` as a CSV field.
pub fn csv_quote(s: &str) -> (r: String)
    ensures
        r@ == csv_quote_spec(s@),
{
    let c = chars_of(s);
    let mut needs = false;
    let mut body: Vec<char> = Vec::new();
    let mut i: usize = 0;
    while i < c.len()
        invariant
            i <= c.len(),
            body@ == double_quotes(c@.take(i as int)),
            needs == needs_quoting(c@.take(i as int)),
        decreases c.len() - i,
    {
        let ch = c[i];
        let ghost pre = c@.take(i as int);
        let ghost cur = c@.take(i + 1);
        assert(cur.drop_last() =~= pre);
        assert(cur.last() == ch);
        if ch == '"' {
            body.push('"');
            body.push('"');
            assert(body@ =~= double_quotes(cur));
        } else {
            body.push(ch);
        }
        if ch == ',' || ch == '"' || ch == '\n' || ch == '\r' {
            needs = true;
            assert(cur[i as int] == ch);
        }
        assert(needs == needs_quoting(cur)) by {
            if needs_quoting(cur) {
                let k = choose|k: int|
                    0 <= k < cur.len() && (cur[k] == ',' || cur[k] == '"' || cur[k] == '\n'
                        || cur[k] == '\r');
                if k < i {
                    assert(pre[k] == cur[k]);
                }
            }
            if needs_quoting(pre) {
                let k = choose|k: int|
                    0 <= k < pre.len() && (pre[k] == ',' || pre[k] == '"' || pre[k] == '\n'
                        || pre[k] == '\r');
                assert(cur[k] == pre[k]);
            }
        }
        i += 1;
    }
    assert(c@.take(c.len() as int) =~= c@);
    if needs {
        let mut out = vec!['"'];
        append_chars(&mut out, &body);
        out.push('"');
        assert(out@ =~= seq!['"'] + double_quotes(c@) + seq!['"']);
        string_of(&out)
    } else {
        s.to_owned()
    }
}

/// How a CSV reader reads the rest of a quoted field, `t` being the text
/// after its opening `"`: `""` stands for one `"`, a lone `"` closes the
/// field and must end the text. `None` when the text is no such field.
pub open spec fn read_quoted(t: Seq<char>) -> Option<Seq<char>>
    decreases t.len(),
{
    if t.len() == 0 {
        None
    } else if t[0] == '"' {
        if t.len() == 1 {
            Some(seq![])
        } else if t[1] == '"' {
            match read_quoted(t.skip(2)) {
                Some(r) => Some(seq!['"'] + r),
                None => None,
            }
        } else {
            None
        }
    } else {
        match read_quoted(t.skip(1)) {
            Some(r) => Some(seq![t[0]] + r),
            None => None,
        }
    }
}

/// How a CSV reader reads one field: quoted when it starts with `"`,
/// otherwise as it stands, which it can only be when it holds no comma,
/// double quote, newline or carriage return.
pub open spec fn read_csv_field(f: Seq<char>) -> Option<Seq<char>> {
    if f.len() > 0 && f[0] == '"' {
        read_quoted(f.skip(1))
    } else if needs_quoting(f) {
        None
    } else {
        Some(f)
    }
}

/// One character with its double quote doubled.
pub open spec fn doubled(c: char) -> Seq<char> {
    if c == '"' {
        seq!['"', '"']
    } else {
        seq![c]
    }
}

/// Doubling quotes works character by character from the front as well.
proof fn lemma_double_quotes_front(c: char, t: Seq<char>)
    ensures
        double_quotes(seq![c] + t) == doubled(c) + double_quotes(t),
    decreases t.len(),
{
    let s = seq![c] + t;
    if t.len() == 0 {
        assert(s.drop_last() =~= Seq::<char>::empty());
        assert(s.last() == c);
        assert(double_quotes(Seq::<char>::empty()) =~= Seq::<char>::empty());
        assert(double_quotes(s) =~= doubled(c));
        assert(doubled(c) + double_quotes(t) =~= doubled(c));
    } else {
        lemma_double_quotes_front(c, t.drop_last());
        assert(s.drop_last() =~= seq![c] + t.drop_last());
        assert(s.last() == t.last());
        if t.last() == '"' {
            assert(double_quotes(s) =~= doubled(c) + double_quotes(t));
        } else {
            assert(double_quotes(s) =~= doubled(c) + double_quotes(t));
        }
    }
}

/// The quoted body of `s` followed by the closing quote reads back as `s`.
proof fn lemma_read_quoted_back(s: Seq<char>)
    ensures
        read_quoted(double_quotes(s) + seq!['"']) == Some(s),
    decreases s.len(),
{
    if s.len() == 0 {
        assert(double_quotes(s) =~= Seq::<char>::empty());
        assert(double_quotes(s) + seq!['"'] =~= seq!['"']);
    } else {
        let c = s[0];
        let rest = s.skip(1);
        assert(s =~= seq![c] + rest);
        lemma_double_quotes_front(c, rest);
        lemma_read_quoted_back(rest);
        let t = double_quotes(s) + seq!['"'];
        if c == '"' {
            assert(t =~= seq!['"', '"'] + (double_quotes(rest) + seq!['"']));
            assert(t.skip(2) =~= double_quotes(rest) + seq!['"']);
            assert(seq!['"'] + rest =~= s);
        } else {
            assert(t =~= seq![c] + (double_quotes(rest) + seq!['"']));
            assert(t.skip(1) =~= double_quotes(rest) + seq!['"']);
            assert(t[0] == c);
            assert(seq![c] + rest =~= s);
        }
    }
}

/// A field written by `csv_quote` reads back, as one CSV field, as the text
/// it was given.
pub proof fn lemma_csv_reads_back(s: Seq<char>)
    ensures
        read_csv_field(csv_quote_spec(s)) == Some(s),
{
    if needs_quoting(s) {
        let f = seq!['"'] + double_quotes(s) + seq!['"'];
        assert(f.skip(1) =~= double_quotes(s) + seq!['"']);
        lemma_read_quoted_back(s);
    } else if s.len() > 0 && s[0] == '"' {
        assert(needs_quoting(s));
    }
}

// ── result tables ──────────────────────────────────────────────────────────

/// A parsed SPARQL results document: the variables, one binding map per row,
/// and the answer of an ASK query.
pub struct Response {
    pub vars: Vec<String>,
    pub rows: Vec<SortedMap<Term>>,
    pub boolean: Option<bool>,
}

/// The bindings of each row.
pub open spec fn row_views(rows: Seq<SortedMap<Term>>) -> Seq<Map<Seq<char>, TermView>> {
    rows.map_values(|r: SortedMap<Term>| r@)
}

/// The field for variable `v` of a row: its term as plain text, or empty
/// when the row does not bind `v`.
pub open spec fn cell_spec(
    row: Map<Seq<char>, TermView>,
    v: Seq<char>,
    full: bool,
    rev: Seq<(Seq<char>, Seq<char>)>,
) -> Seq<char> {
    if row.contains_key(v) {
        blank_controls(fmt_term_spec(row[v], full, rev).0)
    } else {
        seq![]
    }
}

/// The fields of a row, one per variable.
pub open spec fn row_fields(
    vars: Seq<Seq<char>>,
    row: Map<Seq<char>, TermView>,
    full: bool,
    rev: Seq<(Seq<char>, Seq<char>)>,
) -> Seq<Seq<char>> {
    vars.map_values(|v: Seq<char>| cell_spec(row, v, full, rev))
}

/// Each field quoted for CSV.
pub open spec fn csv_fields(fields: Seq<Seq<char>>) -> Seq<Seq<char>> {
    fields.map_values(|f: Seq<char>| csv_quote_spec(f))
}

/// The TSV lines: the header (when shown) and one line per row, fields
/// joined by tabs.
pub open spec fn tsv_lines(
    vars: Seq<Seq<char>>,
    rows: Seq<Map<Seq<char>, TermView>>,
    show_header: bool,
    full: bool,
    rev: Seq<(Seq<char>, Seq<char>)>,
) -> Seq<Seq<char>> {
    (if show_header {
        seq![join(vars, "\t"@)]
    } else {
        seq![]
    }) + rows.map_values(|row: Map<Seq<char>, TermView>| join(row_fields(vars, row, full, rev), "\t"@))
}

/// The CSV lines: the quoted header (when shown) and one line per row,
/// quoted fields joined by commas.
pub open spec fn csv_lines(
    vars: Seq<Seq<char>>,
    rows: Seq<Map<Seq<char>, TermView>>,
    show_header: bool,
    full: bool,
    rev: Seq<(Seq<char>, Seq<char>)>,
) -> Seq<Seq<char>> {
    (if show_header {
        seq![join(csv_fields(vars), ","@)]
    } else {
        seq![]
    }) + rows.map_values(
        |row: Map<Seq<char>, TermView>| join(csv_fields(row_fields(vars, row, full, rev)), ","@),
    )
}

/// The colour of a table cell by the kind of its term.
#[derive(Debug, Clone, Copy, PartialEq, Eq, Structural)]
pub enum Hue {
    Cyan,
    Green,
    DarkGrey,
}

/// IRIs cyan, literals green, blank nodes dark grey.
pub open spec fn hue_of(k: TermKind) -> Hue {
    match k {
        TermKind::Uri => Hue::Cyan,
        TermKind::Literal => Hue::Green,
        TermKind::Bnode => Hue::DarkGrey,
    }
}

/// One cell of the terminal table: its text and, when coloured, its colour.
pub struct StyledCell {
    pub text: String,
    pub hue: Option<Hue>,
}

/// The terminal table: the header (bold when coloured) and the cells.
pub struct TextTable {
    pub header: Vec<String>,
    pub bold_header: bool,
    pub rows: Vec<Vec<StyledCell>>,
}

/// What a table cell shows for variable `v` of a row.
pub open spec fn text_cell_spec(
    row: Map<Seq<char>, TermView>,
    v: Seq<char>,
    full: bool,
    rev: Seq<(Seq<char>, Seq<char>)>,
    color: bool,
) -> (Seq<char>, Option<Hue>) {
    if row.contains_key(v) {
        let (d, k) = fmt_term_spec(row[v], full, rev);
        (
            d,
            if color {
                Some(hue_of(k))
            } else {
                None
            },
        )
    } else {
        (seq![], None)
    }
}

/// The text and colour of each cell of a table row.
pub open spec fn cell_views(cells: Seq<StyledCell>) -> Seq<(Seq<char>, Option<Hue>)> {
    cells.map_values(|c: StyledCell| (c.text@, c.hue))
}

/// The rendered results: lines to print, or a table for the terminal.
pub enum Rendered {
    Lines(Vec<String>),
    Table(TextTable),
}

/// The reverse table of a prefix map, as `reverse` builds it.
pub open spec fn rev_of(map: SortedMap<String>) -> Seq<(Seq<char>, Seq<char>)> {
    sort_by_len(swapped(map.pairs()))
}

/// The plain fields of a row, one per variable.
fn row_fields_exec(vars: &Vec<String>, row: &SortedMap<Term>, full: bool, rev: &Vec<(String, String)>) -> (r: Vec<Vec<char>>)
    ensures
        views(r@) == row_fields(texts(vars@), row@, full, pair_views(rev@)),
{
    let mut out: Vec<Vec<char>> = Vec::new();
    let mut i: usize = 0;
    while i < vars.len()
        invariant
            i <= vars.len(),
            views(out@) == row_fields(texts(vars@), row@, full, pair_views(rev@)).take(i as int),
        decreases vars.len() - i,
    {
        let cell = match row.get(vars[i].as_str()) {
            Some(t) => {
                let p = plain(t, full, rev);
                chars_of(p.as_str())
            },
            None => Vec::new(),
        };
        let ghost before = views(out@);
        out.push(cell);
        assert(views(out@) =~= before.push(cell@));
        assert(views(out@) =~= row_fields(texts(vars@), row@, full, pair_views(rev@)).take(i + 1));
        i += 1;
    }
    assert(row_fields(texts(vars@), row@, full, pair_views(rev@)).take(vars.len() as int) =~= row_fields(
        texts(vars@),
        row@,
        full,
        pair_views(rev@),
    ));
    out
}

/// Each field quoted for CSV.
fn csv_fields_exec(fields: &Vec<Vec<char>>) -> (r: Vec<Vec<char>>)
    ensures
        views(r@) == csv_fields(views(fields@)),
{
    let mut out: Vec<Vec<char>> = Vec::new();
    let mut i: usize = 0;
    while i < fields.len()
        invariant
            i <= fields.len(),
            views(out@) == csv_fields(views(fields@)).take(i as int),
        decreases fields.len() - i,
    {
        let f = string_of(&fields[i]);
        let q = csv_quote(f.as_str());
        let qc = chars_of(q.as_str());
        let ghost before = views(out@);
        out.push(qc);
        assert(views(out@) =~= before.push(qc@));
        assert(views(out@) =~= csv_fields(views(fields@)).take(i + 1));
        i += 1;
    }
    assert(csv_fields(views(fields@)).take(fields.len() as int) =~= csv_fields(views(fields@)));
    out
}

/// The cells of a row of the terminal table.
fn text_row(vars: &Vec<String>, row: &SortedMap<Term>, full: bool, rev: &Vec<(String, String)>, color: bool) -> (r: Vec<StyledCell>)
    ensures
        cell_views(r@) == texts(vars@).map_values(
            |v: Seq<char>| text_cell_spec(row@, v, full, pair_views(rev@), color),
        ),
{
    let ghost want = texts(vars@).map_values(
        |v: Seq<char>| text_cell_spec(row@, v, full, pair_views(rev@), color),
    );
    let mut out: Vec<StyledCell> = Vec::new();
    let mut i: usize = 0;
    while i < vars.len()
        invariant
            i <= vars.len(),
            want == texts(vars@).map_values(
                |v: Seq<char>| text_cell_spec(row@, v, full, pair_views(rev@), color),
            ),
            cell_views(out@) == want.take(i as int),
        decreases vars.len() - i,
    {
        let cell = match row.get(vars[i].as_str()) {
            Some(t) => {
                let (d, k) = fmt_term(t, full, rev);
                let hue = if color {
                    Some(
                        match k {
                            TermKind::Uri => Hue::Cyan,
                            TermKind::Literal => Hue::Green,
                            TermKind::Bnode => Hue::DarkGrey,
                        },
                    )
                } else {
                    None
                };
                StyledCell { text: d, hue }
            },
            None => StyledCell { text: String::new(), hue: None },
        };
        let ghost before = cell_views(out@);
        let ghost cv = (cell.text@, cell.hue);
        out.push(cell);
        assert(cell_views(out@) =~= before.push(cv));
        assert(cell_views(out@) =~= want.take(i + 1));
        i += 1;
    }
    assert(want.take(vars.len() as int) =~= want);
    out
}

/// Render the rows of `resp` in `format`: TSV and CSV as lines, anything
/// else as a terminal table (coloured when `color`).
pub fn render_table(cli: &Cli, format: &str, resp: &Response, map: &SortedMap<String>, color: bool) -> (r: Rendered)
    ensures
        ({
            let rev = rev_of(*map);
            let vars = texts(resp.vars@);
            let rows = row_views(resp.rows@);
            if format@ == "tsv"@ {
                r matches Rendered::Lines(ls) && texts(ls@) == tsv_lines(
                    vars,
                    rows,
                    cli.header && !cli.no_header,
                    cli.full,
                    rev,
                )
            } else if format@ == "csv"@ {
                r matches Rendered::Lines(ls) && texts(ls@) == csv_lines(
                    vars,
                    rows,
                    !cli.no_header,
                    cli.full,
                    rev,
                )
            } else {
                r matches Rendered::Table(t) && texts(t.header@) == vars && t.bold_header == color
                    && t.rows@.len() == rows.len() && forall|j: int|
                    0 <= j < rows.len() ==> cell_views(#[trigger] t.rows@[j]@) == vars.map_values(
                        |v: Seq<char>| text_cell_spec(rows[j], v, cli.full, rev, color),
                    )
            }
        }),
{
    let rev = reverse(map);
    let ghost rv = pair_views(rev@);
    let f = chars_of(format);
    let vars = &resp.vars;
    let rows = &resp.rows;
    let ghost rvs = row_views(rows@);
    if chars_eq_str(&f, "tsv") || chars_eq_str(&f, "csv") {
        let tsv = chars_eq_str(&f, "tsv");
        assert(tsv == (f@ == "tsv"@));
        let vc = char_vecs(vars);
        let sep = if tsv {
            chars_of("\t")
        } else {
            chars_of(",")
        };
        let show = if tsv {
            cli.header && !cli.no_header
        } else {
            !cli.no_header
        };
        let mut lines: Vec<String> = Vec::new();
        if show {
            let line = if tsv {
                join_chars(&vc, &sep)
            } else {
                let q = csv_fields_exec(&vc);
                join_chars(&q, &sep)
            };
            lines.push(string_of(&line));
        }
        let ghost head = texts(lines@);
        let ghost per_row = if tsv {
            rvs.map_values(
                |row: Map<Seq<char>, TermView>| join(row_fields(texts(vars@), row, cli.full, rv), "\t"@),
            )
        } else {
            rvs.map_values(
                |row: Map<Seq<char>, TermView>| join(
                    csv_fields(row_fields(texts(vars@), row, cli.full, rv)),
                    ","@,
                ),
            )
        };
        let mut j: usize = 0;
        while j < rows.len()
            invariant
                j <= rows.len(),
                rvs == row_views(rows@),
                rv == pair_views(rev@),
                tsv == (f@ == "tsv"@),
                sep@ == (if tsv { "\t"@ } else { ","@ }),
                per_row == (if tsv {
                    rvs.map_values(
                        |row: Map<Seq<char>, TermView>| join(row_fields(texts(vars@), row, cli.full, rv), "\t"@),
                    )
                } else {
                    rvs.map_values(
                        |row: Map<Seq<char>, TermView>| join(
                            csv_fields(row_fields(texts(vars@), row, cli.full, rv)),
                            ","@,
                        ),
                    )
                }),
                texts(lines@) == head + per_row.take(j as int),
            decreases rows.len() - j,
        {
            let fields = row_fields_exec(vars, &rows[j], cli.full, &rev);
            let line = if tsv {
                join_chars(&fields, &sep)
            } else {
                let q = csv_fields_exec(&fields);
                join_chars(&q, &sep)
            };
            assert(rvs[j as int] == rows@[j as int]@);
            proof {
                if tsv {
                    assert(line@ == join(row_fields(texts(vars@), rvs[j as int], cli.full, rv), "\t"@));
                } else {
                    assert(line@ == join(csv_fields(row_fields(texts(vars@), rvs[j as int], cli.full, rv)), ","@));
                }
            }
            assert(line@ == per_row[j as int]);
            let ghost before = texts(lines@);
            lines.push(string_of(&line));
            assert(texts(lines@) =~= before.push(line@));
            assert(per_row.take(j + 1) =~= per_row.take(j as int).push(per_row[j as int]));
            assert(texts(lines@) =~= head + per_row.take(j + 1));
            j += 1;
        }
        assert(per_row.take(rows.len() as int) =~= per_row);
        proof {
            if tsv {
                assert(head =~= (if cli.header && !cli.no_header { seq![join(texts(vars@), "\t"@)] } else { Seq::<Seq<char>>::empty() }));
            } else {
                assert(head =~= (if !cli.no_header { seq![join(csv_fields(texts(vars@)), ","@)] } else { Seq::<Seq<char>>::empty() }));
                reveal_strlit("tsv");
                reveal_strlit("csv");
            }
        }
        Rendered::Lines(lines)
    } else {
        let mut header: Vec<String> = Vec::new();
        let mut i: usize = 0;
        while i < vars.len()
            invariant
                i <= vars.len(),
                texts(header@) == texts(vars@).take(i as int),
            decreases vars.len() - i,
        {
            let ghost before = texts(header@);
            header.push(vars[i].clone());
            assert(texts(header@) =~= before.push(vars@[i as int]@));
            assert(texts(header@) =~= texts(vars@).take(i + 1));
            i += 1;
        }
        assert(texts(vars@).take(vars.len() as int) =~= texts(vars@));
        let mut trows: Vec<Vec<StyledCell>> = Vec::new();
        let mut j: usize = 0;
        while j < rows.len()
            invariant
                j <= rows.len(),
                rvs == row_views(rows@),
                rv == pair_views(rev@),
                trows@.len() == j,
                forall|k: int|
                    0 <= k < j ==> cell_views(#[trigger] trows@[k]@) == texts(vars@).map_values(
                        |v: Seq<char>| text_cell_spec(rvs[k], v, cli.full, rv, color),
                    ),
            decreases rows.len() - j,
        {
            let tr = text_row(vars, &rows[j], cli.full, &rev, color);
            assert(rvs[j as int] == rows@[j as int]@);
            trows.push(tr);
            j += 1;
        }
        Rendered::Table(TextTable { header, bold_header: color, rows: trows })
    }
}

// ── the read and update paths ──────────────────────────────────────────────

/// The `Accept` type for a graph (CONSTRUCT/DESCRIBE) result in `format`.
pub open spec fn graph_accept_spec(format: Seq<char>) -> Seq<char> {
    if format == "nt"@ || format == "ntriples"@ || format == "n-triples"@ {
        "application/n-triples"@
    } else if format == "nq"@ || format == "nquads"@ || format == "n-quads"@ {
        "application/n-quads"@
    } else {
        "text/turtle"@
    }
}

/// The `Accept` type for a graph result in `format`.
pub fn graph_accept(format: &str) -> (r: &'static str)
    ensures
        r@ == graph_accept_spec(format@),
{
    let f = chars_of(format);
    if chars_eq_str(&f, "nt") || chars_eq_str(&f, "ntriples") || chars_eq_str(&f, "n-triples") {
        "application/n-triples"
    } else if chars_eq_str(&f, "nq") || chars_eq_str(&f, "nquads") || chars_eq_str(&f, "n-quads") {
        "application/n-quads"
    } else {
        "text/turtle"
    }
}

/// The text sent for `q`: as given with `--no-prefixes`, else with the
/// `PREFIX` declarations it needs in front.
pub open spec fn final_text(no_prefixes: bool, q: Seq<char>, prefixes: Seq<(String, String)>) -> Seq<char> {
    if no_prefixes {
        q
    } else {
        header_for(q, prefixes) + q
    }
}

/// What to do with the endpoint's answer to a read.
#[derive(Debug, Clone, Copy, PartialEq, Eq, Structural)]
pub enum Output {
    /// Print the body as it came.
    Raw,
    /// Print the JSON body pretty-printed (as it came when it is no JSON).
    PrettyJson,
    /// Parse the JSON results and print the boolean or render the rows.
    Results,
}

/// How to send a read and what to do with the answer.
pub struct ReadPlan {
    pub query: String,
    pub accept: String,
    pub output: Output,
}

/// Refuses an update given to read mode.
pub fn check_read_query(q: &str) -> (r: Result<(), SqError>)
    ensures
        match r {
            Ok(()) => query_kind_spec(q@) != Kind::Update,
            Err(e) => query_kind_spec(q@) == Kind::Update && e is UpdateInReadMode,
        },
{
    if query_kind(q) == Kind::Update {
        Err(SqError::UpdateInReadMode)
    } else {
        Ok(())
    }
}

/// The read path's decisions: the final query; graph queries ask for the
/// graph type of `format` and print raw; `xml` asks for XML results and
/// prints raw; everything else asks for JSON results, pretty-printed for
/// `json` and rendered otherwise.
pub fn read_plan(cli: &Cli, format: &str, query: String, map: &SortedMap<String>) -> (p: ReadPlan)
    ensures
        p.query@ == final_text(cli.no_prefixes, query@, map.pairs()),
        one_line_decls(map.pairs()) ==> query_kind_spec(p.query@) == query_kind_spec(query@),
        query_kind_spec(p.query@) == Kind::Graph ==> p.accept@ == graph_accept_spec(format@)
            && p.output == Output::Raw,
        query_kind_spec(p.query@) != Kind::Graph && format@ == "xml"@ ==> p.accept@
            == "application/sparql-results+xml"@ && p.output == Output::Raw,
        query_kind_spec(p.query@) != Kind::Graph && format@ != "xml"@ ==> p.accept@
            == "application/sparql-results+json"@ && p.output == (if format@ == "json"@ {
            Output::PrettyJson
        } else {
            Output::Results
        }),
{
    let final_q = if cli.no_prefixes {
        query
    } else {
        inject(query.as_str(), map)
    };
    let f = chars_of(format);
    if query_kind(final_q.as_str()) == Kind::Graph {
        let accept = graph_accept(format).to_owned();
        return ReadPlan { query: final_q, accept, output: Output::Raw };
    }
    if chars_eq_str(&f, "xml") {
        return ReadPlan {
            query: final_q,
            accept: "application/sparql-results+xml".to_owned(),
            output: Output::Raw,
        };
    }
    let output = if chars_eq_str(&f, "json") {
        Output::PrettyJson
    } else {
        Output::Results
    };
    ReadPlan { query: final_q, accept: "application/sparql-results+json".to_owned(), output }
}

/// How to send an update.
pub struct UpdatePlan {
    /// The text to send.
    pub text: String,
    /// Print the endpoint and the text first.
    pub echo: bool,
    /// Send it (not a dry run).
    pub send: bool,
}

/// The update path's decisions: only updates are accepted; without
/// `--force` a destructive one is refused; it is echoed when verbose or dry,
/// and sent unless dry.
pub fn update_plan(cli: &Cli, upd: String, map: &SortedMap<String>) -> (r: Result<UpdatePlan, SqError>)
    ensures
        query_kind_spec(upd@) != Kind::Update ==> (r matches Err(e) && e is NotAnUpdate),
        query_kind_spec(upd@) == Kind::Update ==> ({
            let f = final_text(cli.no_prefixes, upd@, map.pairs());
            if !cli.force && destructive_spec(f) is Some {
                r matches Err(SqError::Destructive { what }) && destructive_spec(f) == Some(what@)
            } else {
                r matches Ok(p) && p.text@ == f && p.echo == (cli.verbose || cli.dry_run) && p.send
                    == !cli.dry_run
            }
        }),
        one_line_decls(map.pairs()) ==> (r matches Ok(p) ==> query_kind_spec(p.text@) == Kind::Update),
{
    if query_kind(upd.as_str()) != Kind::Update {
        return Err(SqError::NotAnUpdate);
    }
    let final_u = if cli.no_prefixes {
        upd
    } else {
        inject(upd.as_str(), map)
    };
    if !cli.force {
        if let Some(what) = destructive(final_u.as_str()) {
            return Err(SqError::Destructive { what });
        }
    }
    Ok(UpdatePlan { text: final_u, echo: cli.verbose || cli.dry_run, send: !cli.dry_run })
}

/// What to print of an update's answer: the body trimmed, unless nothing is
/// left.
pub fn update_reply(body: &str) -> (r: Option<String>)
    ensures
        trim(body@).len() == 0 ==> r is None,
        trim(body@).len() > 0 ==> (r matches Some(t) && t@ == trim(body@)),
{
    let c = chars_of(body);
    let t = trim_chars(&c);
    if t.len() == 0 {
        None
    } else {
        Some(string_of(&t))
    }
}

} // verus!
