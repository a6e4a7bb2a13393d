//! Description processing: line unfolding and escape decoding, removal of
//! last-modified administrative noise, line and chunk splitting, cohort
//! scoring and selection, and the full teacher/promo extraction pipeline.

use vstd::prelude::*;
use crate::chars::{is_digit, is_space, is_blank, is_word, to_ascii_lower};
use crate::chars::{space_char, blank_char, word_char, ascii_lower_of};
use crate::text::{
    spec_trim, spec_collapse_ws, trim, collapse_whitespace, contains_digit, any_digit,
    insert_lex, insert_sorted, lex_lt, lex_less, chars_of, subvec,
};
use crate::summary::{ws_run_end, ws_end};
use crate::names::{spec_promo_line, likely_promo_line, spec_names_from_text,
    extract_names_from_text, spec_has_mld, has_mld};

verus! {

/// Carriage returns read as line breaks.
pub open spec fn nl_of(c: char) -> char {
    if c == '\r' {
        '\n'
    } else {
        c
    }
}

fn map_cr(v: &Vec<char>) -> (r: Vec<char>)
    ensures
        r@ == v@.map_values(|c: char| nl_of(c)),
{
    let mut r: Vec<char> = Vec::new();
    let mut i: usize = 0;
    while i < v.len()
        invariant
            i <= v@.len(),
            r@ == v@.subrange(0, i as int).map_values(|c: char| nl_of(c)),
        decreases v@.len() - i,
    {
        if v[i] == '\r' {
            r.push('\n');
        } else {
            r.push(v[i]);
        }
        assert(r@ =~= v@.subrange(0, i + 1 as int).map_values(|c: char| nl_of(c)));
        i += 1;
    }
    assert(v@.subrange(0, v@.len() as int) =~= v@);
    r
}

/// End of the run of blanks (spaces and tabs) from `q`.
pub open spec fn blank_run_end(s: Seq<char>, q: int) -> int
    decreases s.len() - q when 0 <= q <= s.len()
{
    if q < s.len() && is_blank(s[q]) {
        blank_run_end(s, q + 1)
    } else {
        q
    }
}

fn blank_end(v: &Vec<char>, q: usize) -> (r: usize)
    requires
        q <= v@.len(),
    ensures
        r == blank_run_end(v@, q as int),
        q <= r <= v@.len(),
{
    let n = v.len();
    let mut i: usize = q;
    while i < n && blank_char(v[i])
        invariant
            q <= i <= n,
            n == v@.len(),
            blank_run_end(v@, q as int) == blank_run_end(v@, i as int),
        decreases n - i,
    {
        i += 1;
    }
    i
}

/// The text with soft line wraps removed: every line break followed by
/// blanks disappears together with the blanks.
pub open spec fn unfold_from(s: Seq<char>, i: int) -> Seq<char>
    decreases s.len() - i when 0 <= i
{
    if i >= s.len() {
        Seq::empty()
    } else if s[i] == '\n' && i + 1 < s.len() && is_blank(s[i + 1]) {
        let j = blank_run_end(s, i + 1);
        let next = if i < j <= s.len() {
            j
        } else {
            i + 1
        };
        unfold_from(s, next)
    } else {
        seq![s[i]] + unfold_from(s, i + 1)
    }
}

fn unfold_lines(v: &Vec<char>) -> (r: Vec<char>)
    ensures
        r@ == unfold_from(v@, 0),
{
    let n = v.len();
    let mut r: Vec<char> = Vec::new();
    let mut i: usize = 0;
    while i < n
        invariant
            i <= n,
            n == v@.len(),
            unfold_from(v@, 0) == r@ + unfold_from(v@, i as int),
        decreases n - i,
    {
        if v[i] == '\n' && i + 1 < n && blank_char(v[i + 1]) {
            let j = blank_end(v, i + 1);
            i = j;
        } else {
            r.push(v[i]);
            assert(r@ =~= r@.subrange(0, r@.len() - 1) + seq![v@[i as int]]);
            i += 1;
        }
    }
    assert(unfold_from(v@, n as int) =~= Seq::<char>::empty());
    assert(r@ =~= r@ + unfold_from(v@, n as int));
    r
}

/// The text with every occurrence of the two-character sequence `c1 c2`
/// replaced by `rep`.
pub open spec fn replace2_from(s: Seq<char>, i: int, c1: char, c2: char, rep: char) -> Seq<
    char,
>
    decreases s.len() - i when 0 <= i
{
    if i >= s.len() {
        Seq::empty()
    } else if i + 1 < s.len() && s[i] == c1 && s[i + 1] == c2 {
        seq![rep] + replace2_from(s, i + 2, c1, c2, rep)
    } else {
        seq![s[i]] + replace2_from(s, i + 1, c1, c2, rep)
    }
}

pub fn replace2(v: &Vec<char>, c1: char, c2: char, rep: char) -> (r: Vec<char>)
    ensures
        r@ == replace2_from(v@, 0, c1, c2, rep),
{
    let n = v.len();
    let mut r: Vec<char> = Vec::new();
    let mut i: usize = 0;
    while i < n
        invariant
            i <= n,
            n == v@.len(),
            replace2_from(v@, 0, c1, c2, rep) == r@ + replace2_from(v@, i as int, c1, c2, rep),
        decreases n - i,
    {
        if i + 1 < n && v[i] == c1 && v[i + 1] == c2 {
            r.push(rep);
            assert(r@ =~= r@.subrange(0, r@.len() - 1) + seq![rep]);
            i += 2;
        } else {
            r.push(v[i]);
            assert(r@ =~= r@.subrange(0, r@.len() - 1) + seq![v@[i as int]]);
            i += 1;
        }
    }
    assert(replace2_from(v@, n as int, c1, c2, rep) =~= Seq::<char>::empty());
    assert(r@ =~= r@ + replace2_from(v@, n as int, c1, c2, rep));
    r
}

/// Line-ending normalization, unfolding of wrapped lines, and decoding of
/// literal backslash-n sequences into real line breaks.
pub open spec fn spec_normalize_desc(s: Seq<char>) -> Seq<char> {
    let a = s.map_values(|c: char| nl_of(c));
    let b = unfold_from(a, 0);
    let c = replace2_from(b, 0, '\\', 'n', '\n');
    replace2_from(c, 0, '\\', 'N', '\n')
}

/// Normalizes raw description text into plain lines.
pub fn normalize_description(v: &Vec<char>) -> (r: Vec<char>)
    ensures
        r@ == spec_normalize_desc(v@),
{
    let a = map_cr(v);
    let b = unfold_lines(&a);
    let c = replace2(&b, '\\', 'n', '\n');
    replace2(&c, '\\', 'N', '\n')
}

/// The end of a last-modified marker read at `i`: the word `modifi` in
/// either ASCII case, an `e` or `e`-acute in either case, optional
/// whitespace, and the word `le` in either ASCII case.
pub open spec fn marker_at(s: Seq<char>, i: int) -> bool {
    &&& 0 <= i
    &&& i + 7 <= s.len()
    &&& to_ascii_lower(s[i]) == 'm'
    &&& to_ascii_lower(s[i + 1]) == 'o'
    &&& to_ascii_lower(s[i + 2]) == 'd'
    &&& to_ascii_lower(s[i + 3]) == 'i'
    &&& to_ascii_lower(s[i + 4]) == 'f'
    &&& to_ascii_lower(s[i + 5]) == 'i'
    &&& (to_ascii_lower(s[i + 6]) == 'e' || s[i + 6] == '\u{e9}' || s[i + 6] == '\u{c9}')
    &&& {
        let w = ws_run_end(s, i + 7);
        w + 2 <= s.len() && to_ascii_lower(s[w]) == 'l' && to_ascii_lower(s[w + 1]) == 'e'
    }
}

fn marker_check(v: &Vec<char>, i: usize) -> (r: bool)
    requires
        i <= v@.len(),
    ensures
        r == marker_at(v@, i as int),
{
    let n = v.len();
    if i >= n || n - i < 7 {
        return false;
    }
    if !(ascii_lower_of(v[i]) == 'm' && ascii_lower_of(v[i + 1]) == 'o' && ascii_lower_of(
        v[i + 2],
    ) == 'd' && ascii_lower_of(v[i + 3]) == 'i' && ascii_lower_of(v[i + 4]) == 'f'
        && ascii_lower_of(v[i + 5]) == 'i') {
        return false;
    }
    let c6 = v[i + 6];
    if !(ascii_lower_of(c6) == 'e' || c6 == '\u{e9}' || c6 == '\u{c9}') {
        return false;
    }
    let w = ws_end(v, i + 7);
    w < n && n - w >= 2 && ascii_lower_of(v[w]) == 'l' && ascii_lower_of(v[w + 1]) == 'e'
}

/// A last-modified marker stands somewhere in `[a, b)`.
pub open spec fn has_marker_between(s: Seq<char>, a: int, b: int) -> bool {
    exists|i: int| a <= i < b && marker_at(s, i)
}

fn find_marker_between(v: &Vec<char>, a: usize, b: usize) -> (r: Option<usize>)
    requires
        a <= b <= v@.len(),
    ensures
        match r {
            Some(i) => a <= i < b && marker_at(v@, i as int) && forall|q: int|
                a <= q < i ==> !marker_at(v@, q),
            None => !has_marker_between(v@, a as int, b as int),
        },
{
    let mut i: usize = a;
    while i < b
        invariant
            a <= i <= b <= v@.len(),
            forall|q: int| a <= q < i ==> !marker_at(v@, q),
        decreases b - i,
    {
        if marker_check(v, i) {
            return Some(i);
        }
        i += 1;
    }
    None
}

/// Index of the first `c` at or after `i`, or the length.
pub open spec fn char_find(s: Seq<char>, i: int, c: char) -> int
    decreases s.len() - i when 0 <= i
{
    if i >= s.len() {
        s.len() as int
    } else if s[i] == c {
        i
    } else {
        char_find(s, i + 1, c)
    }
}

pub fn char_find_exec(v: &Vec<char>, i: usize, c: char) -> (r: usize)
    requires
        i <= v@.len(),
    ensures
        r == char_find(v@, i as int, c),
        i <= r <= v@.len(),
        r < v@.len() ==> v@[r as int] == c,
{
    let n = v.len();
    let mut j: usize = i;
    while j < n && v[j] != c
        invariant
            i <= j <= n,
            n == v@.len(),
            char_find(v@, i as int, c) == char_find(v@, j as int, c),
        decreases n - j,
    {
        j += 1;
    }
    j
}

/// The text with parenthesized last-modified remarks removed: an opening
/// parenthesis whose span up to the next closing one holds a marker is
/// dropped with its span.
pub open spec fn paren_strip_from(s: Seq<char>, i: int) -> Seq<char>
    decreases s.len() - i when 0 <= i
{
    if i >= s.len() {
        Seq::empty()
    } else if s[i] == '(' && char_find(s, i + 1, ')') < s.len() && has_marker_between(
        s,
        i + 1,
        char_find(s, i + 1, ')'),
    ) {
        let next = if i < char_find(s, i + 1, ')') + 1 <= s.len() {
            char_find(s, i + 1, ')') + 1
        } else {
            i + 1
        };
        paren_strip_from(s, next)
    } else {
        seq![s[i]] + paren_strip_from(s, i + 1)
    }
}

fn paren_strip(v: &Vec<char>) -> (r: Vec<char>)
    ensures
        r@ == paren_strip_from(v@, 0),
{
    let n = v.len();
    let mut r: Vec<char> = Vec::new();
    let mut i: usize = 0;
    while i < n
        invariant
            i <= n,
            n == v@.len(),
            paren_strip_from(v@, 0) == r@ + paren_strip_from(v@, i as int),
        decreases n - i,
    {
        let mut handled = false;
        if v[i] == '(' {
            let j = char_find_exec(v, i + 1, ')');
            if j < n {
                if find_marker_between(v, i + 1, j).is_some() {
                    i = j + 1;
                    handled = true;
                }
            }
        }
        if !handled {
            r.push(v[i]);
            assert(r@ =~= r@.subrange(0, r@.len() - 1) + seq![v@[i as int]]);
            i += 1;
        }
    }
    assert(paren_strip_from(v@, n as int) =~= Seq::<char>::empty());
    assert(r@ =~= r@ + paren_strip_from(v@, n as int));
    r
}

/// The text with every line tail from a last-modified marker on removed,
/// the line break itself kept.
pub open spec fn suffix_strip_from(s: Seq<char>, i: int) -> Seq<char>
    decreases s.len() - i when 0 <= i
{
    if i >= s.len() {
        Seq::empty()
    } else if marker_at(s, i) {
        let le = char_find(s, i, '\n');
        let next = if i < le <= s.len() {
            le
        } else {
            i + 1
        };
        suffix_strip_from(s, next)
    } else {
        seq![s[i]] + suffix_strip_from(s, i + 1)
    }
}

fn suffix_strip(v: &Vec<char>) -> (r: Vec<char>)
    ensures
        r@ == suffix_strip_from(v@, 0),
{
    let n = v.len();
    let mut r: Vec<char> = Vec::new();
    let mut i: usize = 0;
    while i < n
        invariant
            i <= n,
            n == v@.len(),
            suffix_strip_from(v@, 0) == r@ + suffix_strip_from(v@, i as int),
        decreases n - i,
    {
        if marker_check(v, i) {
            let le = char_find_exec(v, i, '\n');
            assert(i < le) by {
                assert(marker_at(v@, i as int));
                assert(v@[i as int] != '\n');
            }
            i = le;
        } else {
            r.push(v[i]);
            assert(r@ =~= r@.subrange(0, r@.len() - 1) + seq![v@[i as int]]);
            i += 1;
        }
    }
    assert(suffix_strip_from(v@, n as int) =~= Seq::<char>::empty());
    assert(r@ =~= r@ + suffix_strip_from(v@, n as int));
    r
}

/// Removal of last-modified administrative noise: parenthesized remarks,
/// then line tails, then surrounding whitespace.
pub open spec fn spec_strip_noise(s: Seq<char>) -> Seq<char> {
    spec_trim(suffix_strip_from(paren_strip_from(s, 0), 0))
}

/// Strips last-modified noise from normalized description text.
pub fn strip_modified_noise(v: &Vec<char>) -> (r: Vec<char>)
    ensures
        r@ == spec_strip_noise(v@),
{
    let a = paren_strip(v);
    let b = suffix_strip(&a);
    trim(&b)
}


/// State of the line splitter over a prefix: closed segments and the
/// segment being read; empty segments are kept.
pub open spec fn lines_state(s: Seq<char>, i: int) -> (Seq<Seq<char>>, Seq<char>)
    decreases i,
{
    if i <= 0 {
        (Seq::empty(), Seq::empty())
    } else {
        let prev = lines_state(s, i - 1);
        let c = s[i - 1];
        if c == '\n' {
            (prev.0.push(prev.1), Seq::empty())
        } else {
            (prev.0, prev.1.push(c))
        }
    }
}

/// The line-break-separated segments of the text, empty ones included.
pub open spec fn spec_raw_lines(s: Seq<char>) -> Seq<Seq<char>> {
    let st = lines_state(s, s.len() as int);
    st.0.push(st.1)
}

pub fn raw_lines(v: &Vec<char>) -> (r: Vec<Vec<char>>)
    ensures
        r@.map_values(|w: Vec<char>| w@) == spec_raw_lines(v@),
{
    let mut done: Vec<Vec<char>> = Vec::new();
    let mut cur: Vec<char> = Vec::new();
    let mut i: usize = 0;
    while i < v.len()
        invariant
            i <= v@.len(),
            (done@.map_values(|w: Vec<char>| w@), cur@) == lines_state(v@, i as int),
        decreases v@.len() - i,
    {
        let c = v[i];
        if c == '\n' {
            let w = cur;
            done.push(w);
            cur = Vec::new();
            assert(done@.map_values(|w2: Vec<char>| w2@) =~= lines_state(v@, i + 1 as int).0);
        } else {
            cur.push(c);
        }
        i += 1;
    }
    done.push(cur);
    assert(done@.map_values(|w2: Vec<char>| w2@) =~= spec_raw_lines(v@));
    done
}

/// A line consisting only of dots and dashes.
pub open spec fn spec_punct_only(t: Seq<char>) -> bool {
    t.len() > 0 && forall|j: int|
        0 <= j < t.len() ==> #[trigger] t[j] == '.' || t[j] == '-' || t[j] == '\u{2013}'
            || t[j] == '\u{2014}'
}

fn punct_only(t: &Vec<char>) -> (r: bool)
    ensures
        r == spec_punct_only(t@),
{
    if t.len() == 0 {
        return false;
    }
    let mut i: usize = 0;
    while i < t.len()
        invariant
            i <= t@.len(),
            forall|j: int| 0 <= j < i ==> #[trigger] t@[j] == '.' || t@[j] == '-' || t@[j]
                == '\u{2013}' || t@[j] == '\u{2014}',
        decreases t@.len() - i,
    {
        let c = t[i];
        if !(c == '.' || c == '-' || c == '\u{2013}' || c == '\u{2014}') {
            return false;
        }
        i += 1;
    }
    true
}

/// A kept description line: trimmed, nonempty, free of last-modified
/// markers, and not purely punctuation.
pub open spec fn kept_lines_from(segs: Seq<Seq<char>>, j: int) -> Seq<Seq<char>>
    decreases segs.len() - j when 0 <= j
{
    if j >= segs.len() {
        Seq::empty()
    } else {
        let t = spec_trim(segs[j]);
        if t.len() > 0 && !has_marker_between(t, 0, t.len() as int) && !spec_punct_only(t) {
            seq![t] + kept_lines_from(segs, j + 1)
        } else {
            kept_lines_from(segs, j + 1)
        }
    }
}

fn kept_lines(segs: &Vec<Vec<char>>) -> (r: Vec<Vec<char>>)
    ensures
        r@.map_values(|w: Vec<char>| w@) == kept_lines_from(
            segs@.map_values(|w: Vec<char>| w@),
            0,
        ),
{
    let ghost ss = segs@.map_values(|w: Vec<char>| w@);
    let mut r: Vec<Vec<char>> = Vec::new();
    let mut j: usize = 0;
    while j < segs.len()
        invariant
            j <= segs@.len(),
            ss == segs@.map_values(|w: Vec<char>| w@),
            kept_lines_from(ss, 0) == r@.map_values(|w: Vec<char>| w@) + kept_lines_from(
                ss,
                j as int,
            ),
        decreases segs@.len() - j,
    {
        assert(ss[j as int] == segs@.map_values(|w: Vec<char>| w@)[j as int]);
        let t = trim(&segs[j]);
        let keep = if t.len() == 0 {
            false
        } else if find_marker_between(&t, 0, t.len()).is_some() {
            false
        } else {
            !punct_only(&t)
        };
        if keep {
            r.push(t);
            assert(r@.map_values(|w: Vec<char>| w@) =~= r@.map_values(
                |w: Vec<char>| w@,
            ).subrange(0, r@.len() - 1) + seq![spec_trim(ss[j as int])]);
        }
        j += 1;
    }
    assert(kept_lines_from(ss, segs@.len() as int) =~= Seq::<Seq<char>>::empty());
    assert(r@.map_values(|w: Vec<char>| w@) =~= r@.map_values(|w: Vec<char>| w@)
        + kept_lines_from(ss, segs@.len() as int));
    r
}

pub open spec fn is_chunk_sep(c: char) -> bool {
    c == '\\' || c == '/' || c == '|' || c == '&' || c == '+'
}

fn chunk_sep(c: char) -> (r: bool)
    ensures
        r == is_chunk_sep(c),
{
    c == '\\' || c == '/' || c == '|' || c == '&' || c == '+'
}

pub open spec fn is_list_punct(c: char) -> bool {
    c == ';' || c == ','
}

/// End of the run of semicolons and commas from `q`.
pub open spec fn punct_run_end(s: Seq<char>, q: int) -> int
    decreases s.len() - q when 0 <= q <= s.len()
{
    if q < s.len() && is_list_punct(s[q]) {
        punct_run_end(s, q + 1)
    } else {
        q
    }
}

proof fn lemma_punct_run_lb(s: Seq<char>, q: int)
    requires
        0 <= q <= s.len(),
    ensures
        q <= punct_run_end(s, q) <= s.len(),
    decreases s.len() - q,
{
    if q < s.len() && is_list_punct(s[q]) {
        lemma_punct_run_lb(s, q + 1);
    }
}

fn punct_end(v: &Vec<char>, q: usize) -> (r: usize)
    requires
        q <= v@.len(),
    ensures
        r == punct_run_end(v@, q as int),
        q <= r <= v@.len(),
{
    let n = v.len();
    let mut i: usize = q;
    while i < n && (v[i] == ';' || v[i] == ',')
        invariant
            q <= i <= n,
            n == v@.len(),
            punct_run_end(v@, q as int) == punct_run_end(v@, i as int),
        decreases n - i,
    {
        i += 1;
    }
    i
}

/// The raw chunk segments of a line, split on runs of semicolons or commas
/// and on slash-like separators standing between whitespace.
pub open spec fn chunk_segs_from(s: Seq<char>, i: int, cur: Seq<char>) -> Seq<Seq<char>>
    decreases s.len() - i when 0 <= i
{
    if i >= s.len() {
        seq![cur]
    } else if is_list_punct(s[i]) {
        let r = punct_run_end(s, i);
        let next = if i < r <= s.len() {
            r
        } else {
            i + 1
        };
        seq![cur] + chunk_segs_from(s, next, Seq::empty())
    } else if is_space(s[i]) && {
        let j = ws_run_end(s, i);
        j < s.len() && is_chunk_sep(s[j]) && ws_run_end(s, j + 1) > j + 1
    } {
        let j = ws_run_end(s, i);
        let k = ws_run_end(s, j + 1);
        let next = if i < k <= s.len() {
            k
        } else {
            i + 1
        };
        seq![cur] + chunk_segs_from(s, next, Seq::empty())
    } else {
        chunk_segs_from(s, i + 1, cur.push(s[i]))
    }
}

/// The nonempty trimmed chunks among the raw segments.
pub open spec fn kept_chunks_from(segs: Seq<Seq<char>>, j: int) -> Seq<Seq<char>>
    decreases segs.len() - j when 0 <= j
{
    if j >= segs.len() {
        Seq::empty()
    } else {
        let t = spec_trim(segs[j]);
        if t.len() > 0 {
            seq![t] + kept_chunks_from(segs, j + 1)
        } else {
            kept_chunks_from(segs, j + 1)
        }
    }
}

/// The chunks of a kept line.
pub open spec fn spec_chunks(line: Seq<char>) -> Seq<Seq<char>> {
    kept_chunks_from(chunk_segs_from(line, 0, Seq::empty()), 0)
}

/// Splits a line into separator-delimited chunks, trimmed and nonempty.
pub fn chunks_of_line(line: &Vec<char>) -> (r: Vec<Vec<char>>)
    ensures
        r@.map_values(|w: Vec<char>| w@) == spec_chunks(line@),
{
    let n = line.len();
    let mut segs: Vec<Vec<char>> = Vec::new();
    let mut cur: Vec<char> = Vec::new();
    let mut i: usize = 0;
    while i < n
        invariant
            i <= n,
            n == line@.len(),
            chunk_segs_from(line@, 0, Seq::empty()) == segs@.map_values(|w: Vec<char>| w@)
                + chunk_segs_from(line@, i as int, cur@),
        decreases n - i,
    {
        let ghost m0 = segs@.map_values(|w2: Vec<char>| w2@);
        let ghost c0 = cur@;
        if line[i] == ';' || line[i] == ',' {
            let r2 = punct_end(line, i);
            proof {
                lemma_punct_run_lb(line@, i + 1);
                assert(punct_run_end(line@, i as int) == punct_run_end(line@, i + 1));
            }
            let w = cur;
            segs.push(w);
            cur = Vec::new();
            proof {
                assert(segs@.map_values(|w2: Vec<char>| w2@) =~= m0.push(c0));
                assert(m0.push(c0) + chunk_segs_from(line@, r2 as int, Seq::empty()) =~= m0
                    + (seq![c0] + chunk_segs_from(line@, r2 as int, Seq::empty())));
            }
            i = r2;
        } else {
            let mut is_delim = false;
            let mut k: usize = i;
            if space_char(line[i]) {
                let j = ws_end(line, i);
                if j < n && chunk_sep(line[j]) {
                    let k2 = ws_end(line, j + 1);
                    if k2 > j + 1 {
                        is_delim = true;
                        k = k2;
                    }
                }
            }
            if is_delim {
                let w = cur;
                segs.push(w);
                cur = Vec::new();
                proof {
                    assert(segs@.map_values(|w2: Vec<char>| w2@) =~= m0.push(c0));
                    assert(m0.push(c0) + chunk_segs_from(line@, k as int, Seq::empty()) =~=
                        m0 + (seq![c0] + chunk_segs_from(line@, k as int, Seq::empty())));
                }
                i = k;
            } else {
                cur.push(line[i]);
                i += 1;
            }
        }
    }
    proof {
        assert(chunk_segs_from(line@, n as int, cur@) =~= seq![cur@]);
    }
    let ghost m1 = segs@.map_values(|w2: Vec<char>| w2@);
    let ghost c1 = cur@;
    segs.push(cur);
    proof {
        assert(segs@.map_values(|w2: Vec<char>| w2@) =~= m1.push(c1));
        assert(m1.push(c1) =~= m1 + seq![c1]);
    }
    assert(segs@.map_values(|w2: Vec<char>| w2@) =~= chunk_segs_from(line@, 0, Seq::empty()));
    let ghost ss = segs@.map_values(|w: Vec<char>| w@);
    let mut r: Vec<Vec<char>> = Vec::new();
    let mut j: usize = 0;
    while j < segs.len()
        invariant
            j <= segs@.len(),
            ss == segs@.map_values(|w: Vec<char>| w@),
            kept_chunks_from(ss, 0) == r@.map_values(|w: Vec<char>| w@) + kept_chunks_from(
                ss,
                j as int,
            ),
        decreases segs@.len() - j,
    {
        assert(ss[j as int] == segs@.map_values(|w: Vec<char>| w@)[j as int]);
        let t = trim(&segs[j]);
        if t.len() > 0 {
            r.push(t);
            assert(r@.map_values(|w: Vec<char>| w@) =~= r@.map_values(
                |w: Vec<char>| w@,
            ).subrange(0, r@.len() - 1) + seq![spec_trim(ss[j as int])]);
        }
        j += 1;
    }
    assert(kept_chunks_from(ss, segs@.len() as int) =~= Seq::<Seq<char>>::empty());
    assert(r@.map_values(|w: Vec<char>| w@) =~= r@.map_values(|w: Vec<char>| w@)
        + kept_chunks_from(ss, segs@.len() as int));
    assert(ss == chunk_segs_from(line@, 0, Seq::empty()));
    r
}


/// The cohort/program keywords matched at word boundaries, either case.
pub open spec fn keyword_seq(k: int) -> Seq<char> {
    if k == 0 {
        "master"@
    } else if k == 1 {
        "licence"@
    } else if k == 2 {
        "parcours"@
    } else if k == 3 {
        "groupe"@
    } else if k == 4 {
        "mineure"@
    } else if k == 5 {
        "majeure"@
    } else if k == 6 {
        "promo"@
    } else if k == 7 {
        "promotion"@
    } else if k == 8 {
        "alternant"@
    } else if k == 9 {
        "classique"@
    } else if k == 10 {
        "option"@
    } else if k == 11 {
        "module"@
    } else if k == 12 {
        "semestre"@
    } else {
        "ue"@
    }
}

fn keyword_vec(k: usize) -> (r: Vec<char>)
    requires
        k < 14,
    ensures
        r@ == keyword_seq(k as int),
        2 <= r@.len() <= 9,
{
    proof {
        reveal_strlit("master");
        reveal_strlit("licence");
        reveal_strlit("parcours");
        reveal_strlit("groupe");
        reveal_strlit("mineure");
        reveal_strlit("majeure");
        reveal_strlit("promo");
        reveal_strlit("promotion");
        reveal_strlit("alternant");
        reveal_strlit("classique");
        reveal_strlit("option");
        reveal_strlit("module");
        reveal_strlit("semestre");
        reveal_strlit("ue");
    }
    if k == 0 {
        chars_of("master")
    } else if k == 1 {
        chars_of("licence")
    } else if k == 2 {
        chars_of("parcours")
    } else if k == 3 {
        chars_of("groupe")
    } else if k == 4 {
        chars_of("mineure")
    } else if k == 5 {
        chars_of("majeure")
    } else if k == 6 {
        chars_of("promo")
    } else if k == 7 {
        chars_of("promotion")
    } else if k == 8 {
        chars_of("alternant")
    } else if k == 9 {
        chars_of("classique")
    } else if k == 10 {
        chars_of("option")
    } else if k == 11 {
        chars_of("module")
    } else if k == 12 {
        chars_of("semestre")
    } else {
        chars_of("ue")
    }
}

/// Keyword `k` stands at position `i` up to ASCII case, at word boundaries.
pub open spec fn kw_at(s: Seq<char>, i: int, k: int) -> bool {
    &&& crate::names::fold_contains_at(s, i, keyword_seq(k))
    &&& (i == 0 || !is_word(s[i - 1]))
    &&& (i + keyword_seq(k).len() == s.len() || !is_word(s[i + keyword_seq(k).len()]))
}

pub open spec fn spec_has_keyword(s: Seq<char>) -> bool {
    exists|i: int, k: int| 0 <= k < 14 && kw_at(s, i, k)
}

/// Whether a cohort/program keyword stands in the line as a whole word.
pub fn has_keyword(v: &Vec<char>) -> (r: bool)
    ensures
        r == spec_has_keyword(v@),
{
    let n = v.len();
    let mut k: usize = 0;
    while k < 14
        invariant
            k <= 14,
            n == v@.len(),
            forall|q: int, i: int| 0 <= q < k ==> !kw_at(v@, i, q),
        decreases 14 - k,
    {
        let w = keyword_vec(k);
        let m = w.len();
        if m <= n {
            let mut i: usize = 0;
            while i <= n - m
                invariant
                    2 <= m <= n,
                    n == v@.len(),
                    m == keyword_seq(k as int).len(),
                    k < 14,
                    w@ == keyword_seq(k as int),
                    i <= n - m + 1,
                    forall|q: int| 0 <= q < i ==> !kw_at(v@, q, k as int),
                decreases n - i,
            {
                if crate::names::fold_seq_match_at(v, i, &w) {
                    let pre_ok = i == 0 || !word_char(v[i - 1]);
                    let post_ok = i + m == n || !word_char(v[i + m]);
                    if pre_ok && post_ok {
                        assert(kw_at(v@, i as int, k as int));
                        return true;
                    }
                }
                i += 1;
            }
            assert(forall|q: int| !kw_at(v@, q, k as int)) by {
                assert(forall|q: int| q > n - m ==> !crate::names::fold_contains_at(
                    v@,
                    q,
                    keyword_seq(k as int),
                ));
                assert(forall|q: int| q < 0 ==> !crate::names::fold_contains_at(
                    v@,
                    q,
                    keyword_seq(k as int),
                ));
            }
        } else {
            assert(forall|q: int| !kw_at(v@, q, k as int)) by {
                assert(forall|q: int| !crate::names::fold_contains_at(
                    v@,
                    q,
                    keyword_seq(k as int),
                ));
            }
        }
        k += 1;
    }
    false
}

/// The cohort score of a candidate line: three for a digit, two for an
/// academic-level mark, two for a cohort keyword, one for being nonblank.
pub open spec fn spec_score(line: Seq<char>) -> int {
    (if contains_digit(line) {
        3int
    } else {
        0int
    }) + (if spec_has_mld(line) {
        2int
    } else {
        0int
    }) + (if spec_has_keyword(line) {
        2int
    } else {
        0int
    }) + (if spec_trim(line).len() > 0 {
        1int
    } else {
        0int
    })
}

pub fn score_promo(line: &Vec<char>) -> (r: u32)
    ensures
        r == spec_score(line@),
        r <= 8,
{
    let mut sc: u32 = 0;
    if any_digit(line) {
        sc += 3;
    }
    if has_mld(line) {
        sc += 2;
    }
    if has_keyword(line) {
        sc += 2;
    }
    let t = trim(line);
    if t.len() > 0 {
        sc += 1;
    }
    sc
}

/// Sorted-set insertion of every name in a list, from `j` on.
pub open spec fn insert_all(acc: Seq<Seq<char>>, names: Seq<Seq<char>>, j: int) -> Seq<
    Seq<char>,
>
    decreases names.len() - j when 0 <= j
{
    if j >= names.len() {
        acc
    } else {
        insert_all(insert_lex(acc, names[j]), names, j + 1)
    }
}

/// One line folded into the running teacher set and promo candidate list.
pub open spec fn chunks_fold(
    ts: Seq<Seq<char>>,
    cs: Seq<Seq<char>>,
    chunks: Seq<Seq<char>>,
    j: int,
    found: bool,
) -> (Seq<Seq<char>>, Seq<Seq<char>>, bool)
    decreases chunks.len() - j when 0 <= j
{
    if j >= chunks.len() {
        (ts, cs, found)
    } else {
        let names = spec_names_from_text(chunks[j]);
        if names.len() == 0 {
            chunks_fold(ts, cs.push(chunks[j]), chunks, j + 1, found)
        } else {
            chunks_fold(insert_all(ts, names, 0), cs, chunks, j + 1, true)
        }
    }
}

pub open spec fn line_step(ts: Seq<Seq<char>>, cs: Seq<Seq<char>>, line: Seq<char>) -> (
    Seq<Seq<char>>,
    Seq<Seq<char>>,
) {
    if spec_promo_line(line) {
        (ts, cs.push(line))
    } else {
        let chunks = spec_chunks(line);
        let st = chunks_fold(ts, cs, chunks, 0, false);
        if !st.2 && chunks.len() == 0 {
            (st.0, st.1.push(line))
        } else {
            (st.0, st.1)
        }
    }
}

pub open spec fn lines_fold(
    lines: Seq<Seq<char>>,
    j: int,
    ts: Seq<Seq<char>>,
    cs: Seq<Seq<char>>,
) -> (Seq<Seq<char>>, Seq<Seq<char>>)
    decreases lines.len() - j when 0 <= j
{
    if j >= lines.len() {
        (ts, cs)
    } else {
        let st = line_step(ts, cs, lines[j]);
        lines_fold(lines, j + 1, st.0, st.1)
    }
}

/// The strong promo candidates, scoring at least four, as a sorted set.
pub open spec fn strong_fold(cands: Seq<Seq<char>>, j: int, acc: Seq<Seq<char>>) -> Seq<
    Seq<char>,
>
    decreases cands.len() - j when 0 <= j
{
    if j >= cands.len() {
        acc
    } else if spec_score(cands[j]) >= 4 && spec_trim(cands[j]).len() > 0 {
        strong_fold(cands, j + 1, insert_lex(acc, cands[j]))
    } else {
        strong_fold(cands, j + 1, acc)
    }
}

pub open spec fn any_strong(cands: Seq<Seq<char>>) -> bool {
    exists|j: int| 0 <= j < cands.len() && spec_score(#[trigger] cands[j]) >= 4
}

/// The best candidate by descending score, ties broken alphabetically.
pub open spec fn best_fold(cands: Seq<Seq<char>>, j: int, best: Option<(Seq<char>, int)>)
    -> Option<(Seq<char>, int)>
    decreases cands.len() - j when 0 <= j
{
    if j >= cands.len() {
        best
    } else {
        let sc = spec_score(cands[j]);
        let nb = match best {
            None => Some((cands[j], sc)),
            Some(b) => if sc > b.1 || (sc == b.1 && lex_lt(cands[j], b.0)) {
                Some((cands[j], sc))
            } else {
                Some(b)
            },
        };
        best_fold(cands, j + 1, nb)
    }
}

/// The selected promos: every strong candidate, or the single best one,
/// blank lines left out, sorted and without duplicates.
pub open spec fn spec_select_promos(cands: Seq<Seq<char>>) -> Seq<Seq<char>> {
    if any_strong(cands) {
        strong_fold(cands, 0, Seq::empty())
    } else {
        match best_fold(cands, 0, None) {
            None => Seq::empty(),
            Some(b) => if spec_trim(b.0).len() > 0 {
                seq![b.0]
            } else {
                Seq::empty()
            },
        }
    }
}

pub open spec fn em_dash_seq() -> Seq<char> {
    seq!['\u{2014}']
}

/// The full teacher/promo extraction: the sorted teacher-name set with the
/// em-dash sentinel when none is found, the selected cohort descriptors, and
/// the cleaned description.
pub open spec fn spec_extract(desc: Seq<char>) -> (Seq<Seq<char>>, Seq<Seq<char>>, Seq<
    char,
>) {
    let raw = spec_normalize_desc(desc);
    if spec_trim(raw).len() == 0 {
        (seq![em_dash_seq()], Seq::empty(), Seq::empty())
    } else {
        let cleaned = spec_strip_noise(spec_trim(raw));
        let lines = kept_lines_from(spec_raw_lines(cleaned), 0);
        let st = lines_fold(lines, 0, Seq::empty(), Seq::empty());
        let teachers = if st.0.len() == 0 {
            seq![em_dash_seq()]
        } else {
            st.0
        };
        (teachers, spec_select_promos(st.1), cleaned)
    }
}

/// Extracts teacher names, cohort descriptors and the cleaned description
/// from raw description text.
pub fn extract_teachers_and_promos(desc: &Vec<char>) -> (r: (
    Vec<Vec<char>>,
    Vec<Vec<char>>,
    Vec<char>,
))
    ensures
        r.0@.map_values(|e: Vec<char>| e@) == spec_extract(desc@).0,
        r.1@.map_values(|e: Vec<char>| e@) == spec_extract(desc@).1,
        r.2@ == spec_extract(desc@).2,
{
    let raw = normalize_description(desc);
    let rawt = trim(&raw);
    if rawt.len() == 0 {
        let mut ts: Vec<Vec<char>> = Vec::new();
        let mut dash: Vec<char> = Vec::new();
        dash.push('\u{2014}');
        assert(dash@ =~= em_dash_seq());
        ts.push(dash);
        let ps: Vec<Vec<char>> = Vec::new();
        let cd: Vec<char> = Vec::new();
        assert(ts@.map_values(|e: Vec<char>| e@) =~= seq![em_dash_seq()]);
        assert(ps@.map_values(|e: Vec<char>| e@) =~= Seq::<Seq<char>>::empty());
        return (ts, ps, cd);
    }
    let cleaned = strip_modified_noise(&rawt);
    let segs = raw_lines(&cleaned);
    let lines = kept_lines(&segs);
    let ghost lspec = kept_lines_from(spec_raw_lines(cleaned@), 0);
    let ghost goal = lines_fold(lspec, 0, Seq::empty(), Seq::empty());
    let mut ts: Vec<Vec<char>> = Vec::new();
    let mut cs: Vec<Vec<char>> = Vec::new();
    assert(ts@.map_values(|e: Vec<char>| e@) =~= Seq::<Seq<char>>::empty());
    assert(cs@.map_values(|e: Vec<char>| e@) =~= Seq::<Seq<char>>::empty());
    let mut li: usize = 0;
    while li < lines.len()
        invariant
            li <= lines@.len(),
            lines@.map_values(|w: Vec<char>| w@) == lspec,
            goal == lines_fold(lspec, 0, Seq::empty(), Seq::empty()),
            lines_fold(
                lspec,
                li as int,
                ts@.map_values(|e: Vec<char>| e@),
                cs@.map_values(|e: Vec<char>| e@),
            ) == goal,
        decreases lines@.len() - li,
    {
        assert(lspec[li as int] == lines@.map_values(|w: Vec<char>| w@)[li as int]);
        let ghost ts0 = ts@.map_values(|e: Vec<char>| e@);
        let ghost cs0 = cs@.map_values(|e: Vec<char>| e@);
        let line = &lines[li];
        if likely_promo_line(line) {
            let copy = subvec(line, 0, line.len());
            assert(copy@ =~= line@);
            cs.push(copy);
            assert(cs@.map_values(|e: Vec<char>| e@) =~= cs0.push(lspec[li as int]));
        } else {
            let chunks = chunks_of_line(line);
            let ghost chspec = spec_chunks(line@);
            let mut found = false;
            let mut cj: usize = 0;
            while cj < chunks.len()
                invariant
                    cj <= chunks@.len(),
                    chunks@.map_values(|w: Vec<char>| w@) == chspec,
                    chunks_fold(
                        ts@.map_values(|e: Vec<char>| e@),
                        cs@.map_values(|e: Vec<char>| e@),
                        chspec,
                        cj as int,
                        found,
                    ) == chunks_fold(ts0, cs0, chspec, 0, false),
                decreases chunks@.len() - cj,
            {
                assert(chspec[cj as int] == chunks@.map_values(|w: Vec<char>| w@)[cj as int]);
                let ghost tsc = ts@.map_values(|e: Vec<char>| e@);
                let ghost csc = cs@.map_values(|e: Vec<char>| e@);
                let ghost foundc = found;
                let names = extract_names_from_text(&chunks[cj]);
                if names.len() == 0 {
                    let copy = subvec(&chunks[cj], 0, chunks[cj].len());
                    assert(copy@ =~= chspec[cj as int]);
                    cs.push(copy);
                    assert(cs@.map_values(|e: Vec<char>| e@) =~= csc.push(chspec[cj as int]));
                } else {
                    let ghost nspec = names@.map_values(|e: Vec<char>| e@);
                    assert(nspec == spec_names_from_text(chspec[cj as int]));
                    let mut nj: usize = 0;
                    while nj < names.len()
                        invariant
                            nj <= names@.len(),
                            names@.map_values(|e: Vec<char>| e@) == nspec,
                            insert_all(ts@.map_values(|e: Vec<char>| e@), nspec, nj as int)
                                == insert_all(tsc, nspec, 0),
                            cs@.map_values(|e: Vec<char>| e@) == csc,
                        decreases names@.len() - nj,
                    {
                        assert(nspec[nj as int] == names@.map_values(
                            |e: Vec<char>| e@,
                        )[nj as int]);
                        let nm = subvec(&names[nj], 0, names[nj].len());
                        assert(nm@ =~= nspec[nj as int]);
                        insert_sorted(&mut ts, nm);
                        nj += 1;
                    }
                    assert(ts@.map_values(|e: Vec<char>| e@) == insert_all(tsc, nspec, 0));
                    assert(chunks_fold(tsc, csc, chspec, cj as int, foundc) == chunks_fold(
                        insert_all(tsc, nspec, 0),
                        csc,
                        chspec,
                        cj + 1,
                        true,
                    ));
                    found = true;
                }
                cj += 1;
            }
            assert(chunks_fold(
                ts@.map_values(|e: Vec<char>| e@),
                cs@.map_values(|e: Vec<char>| e@),
                chspec,
                chspec.len() as int,
                found,
            ) == chunks_fold(ts0, cs0, chspec, 0, false));
            if !found && chunks.len() == 0 {
                let ghost cs1 = cs@.map_values(|e: Vec<char>| e@);
                let copy = subvec(line, 0, line.len());
                assert(copy@ =~= line@);
                cs.push(copy);
                assert(cs@.map_values(|e: Vec<char>| e@) =~= cs1.push(lspec[li as int]));
            }
            assert((ts@.map_values(|e: Vec<char>| e@), cs@.map_values(|e: Vec<char>| e@))
                == line_step(ts0, cs0, lspec[li as int]));
        }
        li += 1;
    }
    assert(lines_fold(lspec, lspec.len() as int, ts@.map_values(|e: Vec<char>| e@), cs@
        .map_values(|e: Vec<char>| e@)) == goal);
    let teachers = if ts.len() == 0 {
        let mut t2: Vec<Vec<char>> = Vec::new();
        let mut dash: Vec<char> = Vec::new();
        dash.push('\u{2014}');
        assert(dash@ =~= em_dash_seq());
        t2.push(dash);
        assert(t2@.map_values(|e: Vec<char>| e@) =~= seq![em_dash_seq()]);
        t2
    } else {
        ts
    };
    let promos = select_promos(&cs);
    (teachers, promos, cleaned)
}

/// Selects and orders the promo candidates.
pub fn select_promos(cs: &Vec<Vec<char>>) -> (r: Vec<Vec<char>>)
    ensures
        r@.map_values(|e: Vec<char>| e@) == spec_select_promos(
            cs@.map_values(|e: Vec<char>| e@),
        ),
{
    let ghost cspec = cs@.map_values(|e: Vec<char>| e@);
    let mut strong: Vec<Vec<char>> = Vec::new();
    let mut saw_strong = false;
    assert(strong@.map_values(|e: Vec<char>| e@) =~= Seq::<Seq<char>>::empty());
    let mut j: usize = 0;
    while j < cs.len()
        invariant
            j <= cs@.len(),
            cspec == cs@.map_values(|e: Vec<char>| e@),
            strong_fold(cspec, j as int, strong@.map_values(|e: Vec<char>| e@))
                == strong_fold(cspec, 0, Seq::empty()),
            saw_strong == exists|q: int|
                0 <= q < j && spec_score(#[trigger] cspec[q]) >= 4,
        decreases cs@.len() - j,
    {
        assert(cspec[j as int] == cs@.map_values(|e: Vec<char>| e@)[j as int]);
        let sc = score_promo(&cs[j]);
        if sc >= 4 {
            saw_strong = true;
            let t = trim(&cs[j]);
            if t.len() > 0 {
                let copy = subvec(&cs[j], 0, cs[j].len());
                assert(copy@ =~= cspec[j as int]);
                insert_sorted(&mut strong, copy);
            }
        }
        j += 1;
    }
    if saw_strong {
        return strong;
    }
    let mut best: Option<(usize, u32)> = None;
    let mut j2: usize = 0;
    while j2 < cs.len()
        invariant
            j2 <= cs@.len(),
            cspec == cs@.map_values(|e: Vec<char>| e@),
            match best {
                None => best_fold(cspec, j2 as int, None) == best_fold(cspec, 0, None),
                Some(b) => b.0 < cs@.len() && b.0 < j2 && best_fold(
                    cspec,
                    j2 as int,
                    Some((cspec[b.0 as int], b.1 as int)),
                ) == best_fold(cspec, 0, None),
            },
        decreases cs@.len() - j2,
    {
        assert(cspec[j2 as int] == cs@.map_values(|e: Vec<char>| e@)[j2 as int]);
        let sc = score_promo(&cs[j2]);
        match best {
            None => {
                best = Some((j2, sc));
            },
            Some(b) => {
                if sc > b.1 || (sc == b.1 && lex_less(&cs[j2], &cs[b.0])) {
                    best = Some((j2, sc));
                }
            },
        }
        j2 += 1;
    }
    match best {
        None => {
            let r: Vec<Vec<char>> = Vec::new();
            assert(r@.map_values(|e: Vec<char>| e@) =~= Seq::<Seq<char>>::empty());
            r
        },
        Some(b) => {
            let t = trim(&cs[b.0]);
            if t.len() > 0 {
                let mut r: Vec<Vec<char>> = Vec::new();
                let copy = subvec(&cs[b.0], 0, cs[b.0].len());
                assert(copy@ =~= cspec[b.0 as int]);
                r.push(copy);
                assert(r@.map_values(|e: Vec<char>| e@) =~= seq![cspec[b.0 as int]]);
                r
            } else {
                let r: Vec<Vec<char>> = Vec::new();
                assert(r@.map_values(|e: Vec<char>| e@) =~= Seq::<Seq<char>>::empty());
                r
            }
        },
    }
}


/// Text in cleaned form: no carriage returns, no line break followed by a
/// blank, no literal backslash-n escapes, no last-modified marker, and no
/// surrounding whitespace. The cleaning pipeline leaves such text untouched.
pub open spec fn cleaned_form(s: Seq<char>) -> bool {
    &&& (forall|i: int| 0 <= i < s.len() ==> #[trigger] s[i] != '\r')
    &&& (forall|i: int| 0 <= i < s.len() - 1 ==> !(#[trigger] s[i] == '\n' && is_blank(
        s[i + 1],
    )))
    &&& (forall|i: int|
        0 <= i < s.len() - 1 ==> !(#[trigger] s[i] == '\\' && (s[i + 1] == 'n' || s[i + 1]
            == 'N')))
    &&& (forall|i: int| 0 <= i < s.len() ==> !marker_at(s, i))
    &&& s == spec_trim(s)
}

proof fn lemma_map_nl_id(s: Seq<char>)
    requires
        forall|i: int| 0 <= i < s.len() ==> s[i] != '\r',
    ensures
        s.map_values(|c: char| nl_of(c)) == s,
{
    assert(s.map_values(|c: char| nl_of(c)) =~= s);
}

proof fn lemma_unfold_id(s: Seq<char>, i: int)
    requires
        0 <= i <= s.len(),
        forall|q: int| 0 <= q < s.len() - 1 ==> !(#[trigger] s[q] == '\n' && is_blank(
            s[q + 1],
        )),
    ensures
        unfold_from(s, i) == s.subrange(i, s.len() as int),
    decreases s.len() - i,
{
    if i >= s.len() {
        assert(unfold_from(s, i) =~= s.subrange(i, s.len() as int));
    } else {
        lemma_unfold_id(s, i + 1);
        assert(seq![s[i]] + s.subrange(i + 1, s.len() as int) =~= s.subrange(
            i,
            s.len() as int,
        ));
    }
}

proof fn lemma_replace2_id(s: Seq<char>, i: int, c1: char, c2: char, rep: char)
    requires
        0 <= i <= s.len(),
        forall|q: int| 0 <= q < s.len() - 1 ==> !(#[trigger] s[q] == c1 && s[q + 1] == c2),
    ensures
        replace2_from(s, i, c1, c2, rep) == s.subrange(i, s.len() as int),
    decreases s.len() - i,
{
    if i >= s.len() {
        assert(replace2_from(s, i, c1, c2, rep) =~= s.subrange(i, s.len() as int));
    } else {
        lemma_replace2_id(s, i + 1, c1, c2, rep);
        assert(seq![s[i]] + s.subrange(i + 1, s.len() as int) =~= s.subrange(
            i,
            s.len() as int,
        ));
    }
}

proof fn lemma_paren_strip_id(s: Seq<char>, i: int)
    requires
        0 <= i <= s.len(),
        forall|q: int| 0 <= q < s.len() ==> !marker_at(s, q),
    ensures
        paren_strip_from(s, i) == s.subrange(i, s.len() as int),
    decreases s.len() - i,
{
    if i >= s.len() {
        assert(paren_strip_from(s, i) =~= s.subrange(i, s.len() as int));
    } else {
        assert(!has_marker_between(s, i + 1, char_find(s, i + 1, ')')));
        lemma_paren_strip_id(s, i + 1);
        assert(seq![s[i]] + s.subrange(i + 1, s.len() as int) =~= s.subrange(
            i,
            s.len() as int,
        ));
    }
}

proof fn lemma_suffix_strip_id(s: Seq<char>, i: int)
    requires
        0 <= i <= s.len(),
        forall|q: int| 0 <= q < s.len() ==> !marker_at(s, q),
    ensures
        suffix_strip_from(s, i) == s.subrange(i, s.len() as int),
    decreases s.len() - i,
{
    if i >= s.len() {
        assert(suffix_strip_from(s, i) =~= s.subrange(i, s.len() as int));
    } else {
        lemma_suffix_strip_id(s, i + 1);
        assert(seq![s[i]] + s.subrange(i + 1, s.len() as int) =~= s.subrange(
            i,
            s.len() as int,
        ));
    }
}

/// Cleaning is idempotent on its own output form: description text in
/// cleaned form passes through the whole cleaning pipeline unchanged, so
/// cleaning an already-cleaned description yields the same text. Text whose
/// decoded escapes reintroduce a line break followed by a blank falls
/// outside the cleaned form, and cleaning is not a fixed point there.
pub proof fn lemma_clean_idempotent(s: Seq<char>)
    requires
        cleaned_form(s),
    ensures
        spec_extract(s).2 == s,
{
    lemma_map_nl_id(s);
    lemma_unfold_id(s, 0);
    assert(s.subrange(0, s.len() as int) =~= s);
    lemma_replace2_id(s, 0, '\\', 'n', '\n');
    lemma_replace2_id(s, 0, '\\', 'N', '\n');
    assert(spec_normalize_desc(s) == s);
    if spec_trim(s).len() == 0 {
        assert(s.len() == 0);
        assert(spec_extract(s).2 =~= s);
    } else {
        lemma_paren_strip_id(s, 0);
        lemma_suffix_strip_id(s, 0);
        assert(spec_strip_noise(s) == spec_trim(s));
        assert(spec_extract(s).2 == s);
    }
}


proof fn lemma_insert_all_sorted(acc: Seq<Seq<char>>, names: Seq<Seq<char>>, j: int)
    requires
        0 <= j,
        crate::text::strictly_sorted(acc),
    ensures
        crate::text::strictly_sorted(insert_all(acc, names, j)),
    decreases names.len() - j,
{
    if j < names.len() {
        crate::text::lemma_insert_lex_props(acc, names[j]);
        lemma_insert_all_sorted(insert_lex(acc, names[j]), names, j + 1);
    }
}

proof fn lemma_chunks_fold_sorted(
    ts: Seq<Seq<char>>,
    cs: Seq<Seq<char>>,
    chunks: Seq<Seq<char>>,
    j: int,
    found: bool,
)
    requires
        0 <= j,
        crate::text::strictly_sorted(ts),
    ensures
        crate::text::strictly_sorted(chunks_fold(ts, cs, chunks, j, found).0),
    decreases chunks.len() - j,
{
    if j < chunks.len() {
        let names = spec_names_from_text(chunks[j]);
        if names.len() == 0 {
            lemma_chunks_fold_sorted(ts, cs.push(chunks[j]), chunks, j + 1, found);
        } else {
            lemma_insert_all_sorted(ts, names, 0);
            lemma_chunks_fold_sorted(insert_all(ts, names, 0), cs, chunks, j + 1, true);
        }
    }
}

proof fn lemma_lines_fold_sorted(
    lines: Seq<Seq<char>>,
    j: int,
    ts: Seq<Seq<char>>,
    cs: Seq<Seq<char>>,
)
    requires
        0 <= j,
        crate::text::strictly_sorted(ts),
    ensures
        crate::text::strictly_sorted(lines_fold(lines, j, ts, cs).0),
    decreases lines.len() - j,
{
    if j < lines.len() {
        let st = line_step(ts, cs, lines[j]);
        if spec_promo_line(lines[j]) {
            lemma_lines_fold_sorted(lines, j + 1, st.0, st.1);
        } else {
            lemma_chunks_fold_sorted(ts, cs, spec_chunks(lines[j]), 0, false);
            lemma_lines_fold_sorted(lines, j + 1, st.0, st.1);
        }
    }
}

proof fn lemma_strong_fold_sorted(cands: Seq<Seq<char>>, j: int, acc: Seq<Seq<char>>)
    requires
        0 <= j,
        crate::text::strictly_sorted(acc),
    ensures
        crate::text::strictly_sorted(strong_fold(cands, j, acc)),
    decreases cands.len() - j,
{
    if j < cands.len() {
        if spec_score(cands[j]) >= 4 && spec_trim(cands[j]).len() > 0 {
            crate::text::lemma_insert_lex_props(acc, cands[j]);
            lemma_strong_fold_sorted(cands, j + 1, insert_lex(acc, cands[j]));
        } else {
            lemma_strong_fold_sorted(cands, j + 1, acc);
        }
    }
}

/// The extracted teacher and promo lists are strictly sorted, so each lists
/// a set of strings without repetition, in alphabetical order.
pub proof fn lemma_extract_lists_sorted(desc: Seq<char>)
    ensures
        crate::text::strictly_sorted(spec_extract(desc).0),
        crate::text::strictly_sorted(spec_extract(desc).1),
{
    let raw = spec_normalize_desc(desc);
    if spec_trim(raw).len() == 0 {
    } else {
        let cleaned = spec_strip_noise(spec_trim(raw));
        let lines = kept_lines_from(spec_raw_lines(cleaned), 0);
        lemma_lines_fold_sorted(lines, 0, Seq::empty(), Seq::empty());
        let st = lines_fold(lines, 0, Seq::empty(), Seq::empty());
        lemma_strong_fold_sorted(st.1, 0, Seq::empty());
    }
}

} // verus!
