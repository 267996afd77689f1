//! Scanning over character sequences by index: whitespace runs, words,
//! single characters and substrings. Each scan is a spec function over
//! `Seq<char>` with an executable counterpart on `Vec<char>`.
use vstd::prelude::*;
use crate::text::{append_chars, chars_of, is_whitespace, is_ws, slice_of};

verus! {

// ── whitespace and words ───────────────────────────────────────────────────

/// The first index in `i..hi` whose character is not whitespace, or `hi`.
pub open spec fn skip_ws(s: Seq<char>, i: int, hi: int) -> int
    decreases hi - i,
{
    if i >= hi || !is_ws(s[i]) {
        i
    } else {
        skip_ws(s, i + 1, hi)
    }
}

/// `hi` moved left past trailing whitespace, but not below `lo`.
pub open spec fn back_ws(s: Seq<char>, lo: int, hi: int) -> int
    decreases hi - lo,
{
    if hi <= lo || !is_ws(s[hi - 1]) {
        hi
    } else {
        back_ws(s, lo, hi - 1)
    }
}

/// The first index in `i..hi` whose character is whitespace, or `hi`.
pub open spec fn word_end(s: Seq<char>, i: int, hi: int) -> int
    decreases hi - i,
{
    if i >= hi || is_ws(s[i]) {
        i
    } else {
        word_end(s, i + 1, hi)
    }
}

/// `s` without leading and trailing whitespace (`str::trim`).
pub open spec fn trim(s: Seq<char>) -> Seq<char> {
    let a = skip_ws(s, 0, s.len() as int);
    s.subrange(a, back_ws(s, a, s.len() as int))
}

/// `skip_ws` stays in range and skips only whitespace.
pub proof fn lemma_skip_ws_bounds(s: Seq<char>, i: int, hi: int)
    requires
        i <= hi,
    ensures
        i <= skip_ws(s, i, hi) <= hi,
        skip_ws(s, i, hi) < hi ==> !is_ws(s[skip_ws(s, i, hi)]),
        forall|k: int| i <= k < skip_ws(s, i, hi) ==> is_ws(#[trigger] s[k]),
    decreases hi - i,
{
    if i < hi && is_ws(s[i]) {
        lemma_skip_ws_bounds(s, i + 1, hi);
    }
}

/// `back_ws` stays in range and moves back over whitespace only.
pub proof fn lemma_back_ws_bounds(s: Seq<char>, lo: int, hi: int)
    requires
        lo <= hi,
    ensures
        lo <= back_ws(s, lo, hi) <= hi,
        back_ws(s, lo, hi) > lo ==> !is_ws(s[back_ws(s, lo, hi) - 1]),
        forall|k: int| back_ws(s, lo, hi) <= k < hi ==> is_ws(#[trigger] s[k]),
    decreases hi - lo,
{
    if lo < hi && is_ws(s[hi - 1]) {
        lemma_back_ws_bounds(s, lo, hi - 1);
    }
}

/// `word_end` stays in range and passes over non-whitespace only.
pub proof fn lemma_word_end_bounds(s: Seq<char>, i: int, hi: int)
    requires
        i <= hi,
    ensures
        i <= word_end(s, i, hi) <= hi,
        word_end(s, i, hi) < hi ==> is_ws(s[word_end(s, i, hi)]),
        forall|k: int| i <= k < word_end(s, i, hi) ==> !is_ws(#[trigger] s[k]),
    decreases hi - i,
{
    if i < hi && !is_ws(s[i]) {
        lemma_word_end_bounds(s, i + 1, hi);
    }
}

/// The whitespace-separated words of `s` from index `i` on
/// (`str::split_whitespace` on `s[i..]`).
pub open spec fn words_from(s: Seq<char>, i: int) -> Seq<Seq<char>>
    decreases s.len() - i,
{
    let a = skip_ws(s, i, s.len() as int);
    if i < 0 || a >= s.len() {
        seq![]
    } else {
        let b = word_end(s, a, s.len() as int);
        proof {
            lemma_skip_ws_bounds(s, i, s.len() as int);
            lemma_word_end_bounds(s, a, s.len() as int);
        }
        seq![s.subrange(a, b)] + words_from(s, b)
    }
}

/// The whitespace-separated words of `s`.
pub open spec fn words(s: Seq<char>) -> Seq<Seq<char>> {
    words_from(s, 0)
}

/// The character sequences held by a vector of character vectors.
pub open spec fn views(vs: Seq<Vec<char>>) -> Seq<Seq<char>> {
    vs.map_values(|w: Vec<char>| w@)
}

/// `parts` joined with `sep` between neighbours (`[T]::join`).
pub open spec fn join(parts: Seq<Seq<char>>, sep: Seq<char>) -> Seq<char>
    decreases parts.len(),
{
    if parts.len() == 0 {
        seq![]
    } else if parts.len() == 1 {
        parts[0]
    } else {
        join(parts.drop_last(), sep) + sep + parts.last()
    }
}

/// The first index in `i..hi` that is not whitespace, or `hi`.
pub fn skip_ws_exec(v: &Vec<char>, i: usize, hi: usize) -> (r: usize)
    requires
        i <= hi <= v.len(),
    ensures
        r == skip_ws(v@, i as int, hi as int),
        i <= r <= hi,
{
    let mut j = i;
    while j < hi && is_whitespace(v[j])
        invariant
            i <= j <= hi,
            hi <= v.len(),
            skip_ws(v@, i as int, hi as int) == skip_ws(v@, j as int, hi as int),
        decreases hi - j,
    {
        j += 1;
    }
    j
}

/// `hi` moved left past trailing whitespace, not below `lo`.
pub fn back_ws_exec(v: &Vec<char>, lo: usize, hi: usize) -> (r: usize)
    requires
        lo <= hi <= v.len(),
    ensures
        r == back_ws(v@, lo as int, hi as int),
        lo <= r <= hi,
{
    let mut j = hi;
    while j > lo && is_whitespace(v[j - 1])
        invariant
            lo <= j <= hi,
            hi <= v.len(),
            back_ws(v@, lo as int, hi as int) == back_ws(v@, lo as int, j as int),
        decreases j - lo,
    {
        j -= 1;
    }
    j
}

/// The first index in `i..hi` that is whitespace, or `hi`.
pub fn word_end_exec(v: &Vec<char>, i: usize, hi: usize) -> (r: usize)
    requires
        i <= hi <= v.len(),
    ensures
        r == word_end(v@, i as int, hi as int),
        i <= r <= hi,
{
    let mut j = i;
    while j < hi && !is_whitespace(v[j])
        invariant
            i <= j <= hi,
            hi <= v.len(),
            word_end(v@, i as int, hi as int) == word_end(v@, j as int, hi as int),
        decreases hi - j,
    {
        j += 1;
    }
    j
}

/// The characters of `v` without leading and trailing whitespace.
pub fn trim_chars(v: &Vec<char>) -> (r: Vec<char>)
    ensures
        r@ == trim(v@),
{
    let a = skip_ws_exec(v, 0, v.len());
    let b = back_ws_exec(v, a, v.len());
    slice_of(v, a, b)
}

/// The whitespace-separated words of `v`.
pub fn words_of(v: &Vec<char>) -> (r: Vec<Vec<char>>)
    ensures
        views(r@) == words(v@),
{
    let mut r: Vec<Vec<char>> = Vec::new();
    let mut i: usize = 0;
    while i < v.len()
        invariant
            i <= v.len(),
            words(v@) == views(r@) + words_from(v@, i as int),
        decreases v.len() - i,
    {
        let a = skip_ws_exec(v, i, v.len());
        if a == v.len() {
            assert(words_from(v@, i as int) == Seq::<Seq<char>>::empty());
            i = a;
        } else {
            let b = word_end_exec(v, a, v.len());
            proof {
                lemma_skip_ws_bounds(v@, i as int, v.len() as int);
                lemma_word_end_bounds(v@, a as int, v.len() as int);
            }
            let w = slice_of(v, a, b);
            let ghost before = views(r@);
            r.push(w);
            assert(views(r@) =~= before.push(w@));
            assert(words_from(v@, i as int) == seq![v@.subrange(a as int, b as int)] + words_from(v@, b as int));
            assert(before + words_from(v@, i as int) =~= before.push(w@) + words_from(v@, b as int));
            i = b;
        }
    }
    assert(words_from(v@, i as int) == Seq::<Seq<char>>::empty());
    assert(views(r@) + Seq::<Seq<char>>::empty() =~= views(r@));
    r
}

/// `parts` joined with `sep`.
pub fn join_chars(parts: &Vec<Vec<char>>, sep: &Vec<char>) -> (r: Vec<char>)
    ensures
        r@ == join(views(parts@), sep@),
{
    let mut r: Vec<char> = Vec::new();
    let mut i: usize = 0;
    while i < parts.len()
        invariant
            i <= parts.len(),
            r@ == join(views(parts@).take(i as int), sep@),
        decreases parts.len() - i,
    {
        let ghost dv = views(parts@);
        assert(dv.take(i + 1).drop_last() =~= dv.take(i as int));
        assert(dv.take(i + 1).last() == parts@[i as int]@);
        if i > 0 {
            append_chars(&mut r, sep);
        } else {
            assert(dv.take(1)[0] == parts@[0]@);
        }
        append_chars(&mut r, &parts[i]);
        i += 1;
    }
    assert(views(parts@).take(parts.len() as int) =~= views(parts@));
    r
}

// ── single characters ──────────────────────────────────────────────────────

/// The first index at or after `from` holding `c` (`str::find` with a char).
pub open spec fn first_index(s: Seq<char>, c: char, from: int) -> Option<int>
    decreases s.len() - from,
{
    if from < 0 || from >= s.len() {
        None
    } else if s[from] == c {
        Some(from)
    } else {
        first_index(s, c, from + 1)
    }
}

/// The last index below `hi` holding `c` (`str::rfind` with a char on `s[..hi]`).
pub open spec fn last_index(s: Seq<char>, c: char, hi: int) -> Option<int>
    decreases hi,
{
    if hi <= 0 {
        None
    } else if s[hi - 1] == c {
        Some(hi - 1)
    } else {
        last_index(s, c, hi - 1)
    }
}

/// `first_index` finds the first occurrence at or after `from`.
pub proof fn lemma_first_index(s: Seq<char>, c: char, from: int)
    requires
        0 <= from,
    ensures
        match first_index(s, c, from) {
            Some(i) => from <= i < s.len() && s[i] == c && forall|k: int|
                from <= k < i ==> #[trigger] s[k] != c,
            None => forall|k: int| from <= k < s.len() ==> #[trigger] s[k] != c,
        },
    decreases s.len() - from,
{
    if from < s.len() && s[from] != c {
        lemma_first_index(s, c, from + 1);
    }
}

/// `last_index` finds the last occurrence below `hi`.
pub proof fn lemma_last_index(s: Seq<char>, c: char, hi: int)
    requires
        hi <= s.len(),
    ensures
        match last_index(s, c, hi) {
            Some(i) => 0 <= i < hi && s[i] == c && forall|k: int| i < k < hi ==> #[trigger] s[k] != c,
            None => forall|k: int| 0 <= k < hi ==> #[trigger] s[k] != c,
        },
    decreases hi,
{
    if hi > 0 && s[hi - 1] != c {
        lemma_last_index(s, c, hi - 1);
    }
}

/// The first index at or after `from` holding `c`.
pub fn first_index_exec(v: &Vec<char>, c: char, from: usize) -> (r: Option<usize>)
    ensures
        match r {
            Some(i) => first_index(v@, c, from as int) == Some(i as int),
            None => first_index(v@, c, from as int) is None,
        },
{
    let mut i = from;
    while i < v.len()
        invariant
            from <= i,
            first_index(v@, c, from as int) == first_index(v@, c, i as int),
        decreases v.len() - i,
    {
        if v[i] == c {
            return Some(i);
        }
        i += 1;
    }
    None
}

/// The last index below `hi` holding `c`.
pub fn last_index_exec(v: &Vec<char>, c: char, hi: usize) -> (r: Option<usize>)
    requires
        hi <= v.len(),
    ensures
        match r {
            Some(i) => last_index(v@, c, hi as int) == Some(i as int),
            None => last_index(v@, c, hi as int) is None,
        },
{
    let mut j = hi;
    while j > 0
        invariant
            j <= hi <= v.len(),
            last_index(v@, c, hi as int) == last_index(v@, c, j as int),
        decreases j,
    {
        if v[j - 1] == c {
            return Some(j - 1);
        }
        j -= 1;
    }
    None
}

// ── substrings ─────────────────────────────────────────────────────────────

/// `n` occurs in `s` starting at index `i`.
pub open spec fn matches_at(s: Seq<char>, n: Seq<char>, i: int) -> bool {
    0 <= i && i + n.len() <= s.len() && s.subrange(i, i + n.len()) == n
}

/// `n` occurs somewhere in `s` (`str::contains`).
pub open spec fn contains(s: Seq<char>, n: Seq<char>) -> bool {
    exists|i: int| matches_at(s, n, i)
}

/// The first index at or after `from` where `n` occurs in `s` (`str::find`).
pub open spec fn find_from(s: Seq<char>, n: Seq<char>, from: int) -> Option<int>
    decreases s.len() + 1 - from,
{
    if from < 0 || from + n.len() > s.len() {
        None
    } else if matches_at(s, n, from) {
        Some(from)
    } else {
        find_from(s, n, from + 1)
    }
}

/// `find_from` finds the first occurrence at or after `from`.
pub proof fn lemma_find_from(s: Seq<char>, n: Seq<char>, from: int)
    requires
        0 <= from,
    ensures
        match find_from(s, n, from) {
            Some(i) => from <= i && matches_at(s, n, i) && forall|k: int|
                from <= k < i ==> !#[trigger] matches_at(s, n, k),
            None => forall|k: int| from <= k ==> !#[trigger] matches_at(s, n, k),
        },
    decreases s.len() + 1 - from,
{
    if from + n.len() <= s.len() && !matches_at(s, n, from) {
        lemma_find_from(s, n, from + 1);
    }
}

/// `n` occurs in `s` exactly when a search from the start finds it.
pub proof fn lemma_contains_find(s: Seq<char>, n: Seq<char>)
    ensures
        contains(s, n) <==> find_from(s, n, 0) is Some,
{
    lemma_find_from(s, n, 0);
}

/// Whether `n` occurs in `s` at index `i`.
pub fn matches_at_exec(s: &Vec<char>, n: &Vec<char>, i: usize) -> (r: bool)
    ensures
        r == matches_at(s@, n@, i as int),
{
    if i > s.len() || n.len() > s.len() - i {
        return false;
    }
    let mut k: usize = 0;
    while k < n.len()
        invariant
            k <= n.len(),
            i + n.len() <= s.len(),
            s@.subrange(i as int, i + k) == n@.take(k as int),
        decreases n.len() - k,
    {
        if s[i + k] != n[k] {
            assert(s@.subrange(i as int, i + n.len())[k as int] != n@[k as int]);
            return false;
        }
        assert(s@.subrange(i as int, i + k + 1) =~= s@.subrange(i as int, i + k).push(s@[i + k]));
        assert(n@.take(k + 1) =~= n@.take(k as int).push(n@[k as int]));
        k += 1;
    }
    assert(n@.take(n.len() as int) =~= n@);
    true
}

/// The first index at or after `from` where `n` occurs in `s`.
pub fn find_exec(s: &Vec<char>, n: &Vec<char>, from: usize) -> (r: Option<usize>)
    ensures
        match r {
            Some(i) => find_from(s@, n@, from as int) == Some(i as int),
            None => find_from(s@, n@, from as int) is None,
        },
{
    let mut i = from;
    while i <= s.len() && n.len() <= s.len() - i
        invariant
            from <= i,
            find_from(s@, n@, from as int) == find_from(s@, n@, i as int),
        decreases s.len() + 1 - i,
    {
        if matches_at_exec(s, n, i) {
            return Some(i);
        }
        if i == s.len() {
            assert(find_from(s@, n@, i + 1) is None);
            return None;
        }
        i += 1;
    }
    None
}

/// Whether `n` occurs in `s`.
pub fn contains_exec(s: &Vec<char>, n: &Vec<char>) -> (r: bool)
    ensures
        r == contains(s@, n@),
{
    proof {
        lemma_contains_find(s@, n@);
    }
    find_exec(s, n, 0).is_some()
}

/// Whether the literal `lit` occurs in `s`.
pub fn contains_str(s: &Vec<char>, lit: &str) -> (r: bool)
    ensures
        r == contains(s@, lit@),
{
    let n = chars_of(lit);
    contains_exec(s, &n)
}

} // verus!
