//! The type/subject classifier: splits a trimmed summary line into a course
//! type code and a subject, by three ordered rules (type first; subject,
//! dash, type; subject then type), with a whole-title preservation rule for
//! collapsible types and trailing-date stripping on the subject.

use vstd::prelude::*;
use crate::chars::{is_digit, is_space, is_upper, is_word, to_lower, to_ascii_lower};
use crate::chars::{digit_char as digit_c, space_char, word_char, alnum_char, upper_char};
use crate::chars::{lower_of, ascii_lower_of};
use crate::text::{leading_spaces, spec_trim, spec_collapse_ws, trim, collapse_whitespace};
use crate::datetime::{spec_days_in_month, days_in_month, is_valid_ymd, spec_digits_value, digits_value};

verus! {

/// The recognized course-type tokens, in match priority order.
pub open spec fn token_seq(k: int) -> Seq<char> {
    if k == 0 {
        seq!['C', 'M']
    } else if k == 1 {
        seq!['T', 'D']
    } else if k == 2 {
        seq!['T', 'P']
    } else if k == 3 {
        seq!['C', 'T']
    } else if k == 4 {
        seq!['D', 'S']
    } else if k == 5 {
        seq!['C', 'C']
    } else if k == 6 {
        seq!['E', 'X', 'A', 'M']
    } else if k == 7 {
        seq!['P', 'R', 'O', 'J', 'E', 'T']
    } else if k == 8 {
        seq!['R', '\u{c9}', 'U', 'N', 'I', 'O', 'N']
    } else {
        seq!['R', 'E', 'U', 'N', 'I', 'O', 'N']
    }
}

pub fn token_vec(k: usize) -> (r: Vec<char>)
    requires
        k <= 9,
    ensures
        r@ == token_seq(k as int),
{
    let mut r: Vec<char> = Vec::new();
    if k == 0 {
        r.push('C');
        r.push('M');
    } else if k == 1 {
        r.push('T');
        r.push('D');
    } else if k == 2 {
        r.push('T');
        r.push('P');
    } else if k == 3 {
        r.push('C');
        r.push('T');
    } else if k == 4 {
        r.push('D');
        r.push('S');
    } else if k == 5 {
        r.push('C');
        r.push('C');
    } else if k == 6 {
        r.push('E');
        r.push('X');
        r.push('A');
        r.push('M');
    } else if k == 7 {
        r.push('P');
        r.push('R');
        r.push('O');
        r.push('J');
        r.push('E');
        r.push('T');
    } else if k == 8 {
        r.push('R');
        r.push('\u{c9}');
        r.push('U');
        r.push('N');
        r.push('I');
        r.push('O');
        r.push('N');
    } else {
        r.push('R');
        r.push('E');
        r.push('U');
        r.push('N');
        r.push('I');
        r.push('O');
        r.push('N');
    }
    assert(r@ =~= token_seq(k as int));
    r
}

/// Case-insensitive match (by Latin lowercase folding) of `w` inside `s` at
/// position `i`.
pub open spec fn fold_match_at(s: Seq<char>, i: int, w: Seq<char>) -> bool {
    &&& 0 <= i
    &&& i + w.len() <= s.len()
    &&& forall|j: int| 0 <= j < w.len() ==> to_lower(s[i + j]) == to_lower(#[trigger] w[j])
}

fn fold_match(v: &Vec<char>, i: usize, w: &Vec<char>) -> (r: bool)
    ensures
        r == fold_match_at(v@, i as int, w@),
{
    let n = v.len();
    let m = w.len();
    if i > n || m > n - i {
        return false;
    }
    let mut j: usize = 0;
    while j < m
        invariant
            j <= m,
            m == w@.len(),
            n == v@.len(),
            i + m <= n,
            forall|q: int| 0 <= q < j ==> to_lower(v@[i + q]) == to_lower(#[trigger] w@[q]),
        decreases m - j,
    {
        if lower_of(v[i + j]) != lower_of(w[j]) {
            return false;
        }
        j += 1;
    }
    true
}

/// Index of the first token matching at `i`, or 10 when none does.
pub open spec fn spec_token_at(s: Seq<char>, i: int) -> int {
    if fold_match_at(s, i, token_seq(0)) {
        0
    } else if fold_match_at(s, i, token_seq(1)) {
        1
    } else if fold_match_at(s, i, token_seq(2)) {
        2
    } else if fold_match_at(s, i, token_seq(3)) {
        3
    } else if fold_match_at(s, i, token_seq(4)) {
        4
    } else if fold_match_at(s, i, token_seq(5)) {
        5
    } else if fold_match_at(s, i, token_seq(6)) {
        6
    } else if fold_match_at(s, i, token_seq(7)) {
        7
    } else if fold_match_at(s, i, token_seq(8)) {
        8
    } else if fold_match_at(s, i, token_seq(9)) {
        9
    } else {
        10
    }
}

fn token_at(v: &Vec<char>, i: usize) -> (r: usize)
    ensures
        r == spec_token_at(v@, i as int),
        r <= 10,
{
    let mut k: usize = 0;
    while k < 10
        invariant
            k <= 10,
            forall|q: int| 0 <= q < k ==> !fold_match_at(v@, i as int, token_seq(q)),
        decreases 10 - k,
    {
        let w = token_vec(k);
        if fold_match(v, i, &w) {
            return k;
        }
        k += 1;
    }
    10
}

/// A suffix letter group character: A through G, either case.
pub open spec fn is_suffix_letter(c: char) -> bool {
    ('A' <= c && c <= 'G') || ('a' <= c && c <= 'g')
}

fn suffix_letter(c: char) -> (r: bool)
    ensures
        r == is_suffix_letter(c),
{
    ('A' <= c && c <= 'G') || ('a' <= c && c <= 'g')
}

/// End of the numeric part of a type suffix read greedily from `q`: digits,
/// possibly continued by a dot or dash followed by further digits.
pub open spec fn suffix_digits_end(s: Seq<char>, q: int) -> int
    decreases s.len() - q when 0 <= q <= s.len()
{
    if q < s.len() && is_digit(s[q]) {
        suffix_digits_end(s, q + 1)
    } else if q + 1 < s.len() && (s[q] == '.' || s[q] == '-') && is_digit(s[q + 1]) {
        suffix_digits_end(s, q + 2)
    } else {
        q
    }
}

proof fn lemma_suffix_digits_end_bounds(s: Seq<char>, q: int)
    requires
        0 <= q <= s.len(),
    ensures
        q <= suffix_digits_end(s, q) <= s.len(),
    decreases s.len() - q,
{
    if q < s.len() && is_digit(s[q]) {
        lemma_suffix_digits_end_bounds(s, q + 1);
    } else if q + 1 < s.len() && (s[q] == '.' || s[q] == '-') && is_digit(s[q + 1]) {
        lemma_suffix_digits_end_bounds(s, q + 2);
    }
}

/// End of the optional type suffix starting at `p`: a numeric group with an
/// optional trailing letter A-G, or a single letter A-G, or nothing.
pub open spec fn spec_suffix_end(s: Seq<char>, p: int) -> int {
    if 0 <= p < s.len() && is_digit(s[p]) {
        let e = suffix_digits_end(s, p + 1);
        if e < s.len() && is_suffix_letter(s[e]) {
            e + 1
        } else {
            e
        }
    } else if 0 <= p < s.len() && is_suffix_letter(s[p]) {
        p + 1
    } else {
        p
    }
}

fn suffix_end(v: &Vec<char>, p: usize) -> (r: usize)
    requires
        p <= v@.len(),
    ensures
        r == spec_suffix_end(v@, p as int),
        p <= r <= v@.len(),
{
    let n = v.len();
    if p < n && digit_c(v[p]) {
        let mut q: usize = p + 1;
        loop
            invariant
                p + 1 <= q <= n,
                n == v@.len(),
                suffix_digits_end(v@, p + 1) == suffix_digits_end(v@, q as int),
            ensures
                p + 1 <= q <= n,
                suffix_digits_end(v@, p + 1) == q,
            decreases n - q,
        {
            if q < n && digit_c(v[q]) {
                q += 1;
            } else if q < n && n - q >= 2 && (v[q] == '.' || v[q] == '-') && digit_c(v[q + 1]) {
                q += 2;
            } else {
                assert(q + 1 < n ==> !((v@[q as int] == '.' || v@[q as int] == '-') && is_digit(
                    v@[q + 1],
                )));
                assert(suffix_digits_end(v@, q as int) == q);
                break;
            }
        }
        if q < n && suffix_letter(v[q]) {
            q + 1
        } else {
            q
        }
    } else if p < n && suffix_letter(v[p]) {
        p + 1
    } else {
        p
    }
}

/// End of the run of whitespace characters from `q`.
pub open spec fn ws_run_end(s: Seq<char>, q: int) -> int
    decreases s.len() - q when 0 <= q <= s.len()
{
    if q < s.len() && is_space(s[q]) {
        ws_run_end(s, q + 1)
    } else {
        q
    }
}

proof fn lemma_ws_run_end_bounds(s: Seq<char>, q: int)
    requires
        0 <= q <= s.len(),
    ensures
        q <= ws_run_end(s, q) <= s.len(),
        forall|j: int| q <= j < ws_run_end(s, q) ==> is_space(s[j]),
        ws_run_end(s, q) == s.len() || !is_space(s[ws_run_end(s, q)]),
    decreases s.len() - q,
{
    if q < s.len() && is_space(s[q]) {
        lemma_ws_run_end_bounds(s, q + 1);
    }
}

pub fn ws_end(v: &Vec<char>, q: usize) -> (r: usize)
    requires
        q <= v@.len(),
    ensures
        r == ws_run_end(v@, q as int),
        q <= r <= v@.len(),
{
    let n = v.len();
    let mut i: usize = q;
    while i < n && space_char(v[i])
        invariant
            q <= i <= n,
            n == v@.len(),
            ws_run_end(v@, q as int) == ws_run_end(v@, i as int),
        decreases n - i,
    {
        i += 1;
    }
    i
}

/// End of the run of separator characters (whitespace or dash) from `q`.
pub open spec fn sep_run_end(s: Seq<char>, q: int) -> int
    decreases s.len() - q when 0 <= q <= s.len()
{
    if q < s.len() && (is_space(s[q]) || s[q] == '-') {
        sep_run_end(s, q + 1)
    } else {
        q
    }
}

fn sep_end(v: &Vec<char>, q: usize) -> (r: usize)
    requires
        q <= v@.len(),
    ensures
        r == sep_run_end(v@, q as int),
        q <= r <= v@.len(),
{
    let n = v.len();
    let mut i: usize = q;
    while i < n && (space_char(v[i]) || v[i] == '-')
        invariant
            q <= i <= n,
            n == v@.len(),
            sep_run_end(v@, q as int) == sep_run_end(v@, i as int),
        decreases n - i,
    {
        i += 1;
    }
    proof {
        lemma_sep_run_end_bounds(v@, i as int);
    }
    i
}

proof fn lemma_sep_run_end_bounds(s: Seq<char>, q: int)
    requires
        0 <= q <= s.len(),
    ensures
        q <= sep_run_end(s, q) <= s.len(),
    decreases s.len() - q,
{
    if q < s.len() && (is_space(s[q]) || s[q] == '-') {
        lemma_sep_run_end_bounds(s, q + 1);
    }
}

pub open spec fn no_newline(s: Seq<char>, from: int, to: int) -> bool {
    forall|j: int| from <= j < to ==> s[j] != '\n'
}

fn check_no_newline(v: &Vec<char>, from: usize, to: usize) -> (r: bool)
    requires
        from <= to <= v@.len(),
    ensures
        r == no_newline(v@, from as int, to as int),
{
    let mut i: usize = from;
    while i < to
        invariant
            from <= i <= to <= v@.len(),
            no_newline(v@, from as int, i as int),
        decreases to - i,
    {
        if v[i] == '\n' {
            return false;
        }
        i += 1;
    }
    true
}

/// A match found by one of the three classifier rules: which token, where the
/// token text stands, and where the subject stands.
pub struct RuleMatch {
    pub token: usize,
    pub type_lo: usize,
    pub type_hi: usize,
    pub subj_lo: usize,
    pub subj_hi: usize,
}

/// Rule one, type then subject: the summary begins with a type token and an
/// optional suffix, followed by whitespace or dashes, and the rest is the
/// subject. Yields (token index, subject start), or nothing.
pub open spec fn spec_rule1(s: Seq<char>) -> Option<(int, int)> {
    let p0 = leading_spaces(s);
    let k = spec_token_at(s, p0);
    if k == 10 {
        None
    } else {
        let e = spec_suffix_end(s, p0 + token_seq(k).len());
        if e < s.len() && (is_space(s[e]) || s[e] == '-') {
            let e2 = sep_run_end(s, e);
            if e2 < s.len() && no_newline(s, e2, s.len() as int) {
                Some((k, e2))
            } else {
                None
            }
        } else {
            None
        }
    }
}

fn rule1(v: &Vec<char>) -> (r: Option<RuleMatch>)
    ensures
        match r {
            Some(m) => {
                &&& spec_rule1(v@) == Some((m.token as int, m.subj_lo as int))
                &&& m.type_lo == leading_spaces(v@)
                &&& m.type_hi == m.type_lo + token_seq(m.token as int).len()
                &&& m.subj_hi == v@.len()
                &&& m.type_lo <= m.type_hi <= m.subj_lo <= m.subj_hi
            },
            None => spec_rule1(v@) is None,
        },
{
    let n = v.len();
    let p0 = ws_end(v, 0);
    proof {
        lemma_ws_run_end_bounds(v@, 0);
        lemma_leading_spaces_is_ws_run(v@);
    }
    let k = token_at(v, p0);
    if k == 10 {
        return None;
    }
    let tlen = token_vec(k).len();
    assert(p0 + tlen <= n) by {
        assert(fold_match_at(v@, p0 as int, token_seq(k as int)));
    }
    let e = suffix_end(v, p0 + tlen);
    if e < n && (space_char(v[e]) || v[e] == '-') {
        let e2 = sep_end(v, e);
        if e2 < n && check_no_newline(v, e2, n) {
            return Some(
                RuleMatch {
                    token: k,
                    type_lo: p0,
                    type_hi: p0 + tlen,
                    subj_lo: e2,
                    subj_hi: n,
                },
            );
        }
        return None;
    }
    None
}

proof fn lemma_leading_spaces_is_ws_run(s: Seq<char>)
    ensures
        leading_spaces(s) == ws_run_end(s, 0),
{
    lemma_ws_run_end_bounds(s, 0);
    crate::text::lemma_leading_spaces_at(s, ws_run_end(s, 0));
}

/// One attempt of rule two at dash position `d`: the subject runs from `p0`
/// to the start of the whitespace before the dash, and a type token with
/// suffix and word boundary follows the dash, with no line break after.
pub open spec fn rule2_hit_at(s: Seq<char>, p0: int, d: int, w: int) -> Option<(int, int, int)> {
    let q = ws_run_end(s, d + 1);
    let k = spec_token_at(s, q);
    if k == 10 {
        None
    } else {
        let e = spec_suffix_end(s, q + token_seq(k).len());
        if (e == s.len() || !is_word(s[e])) && no_newline(s, e, s.len() as int) && w > p0
            && no_newline(s, p0, w) {
            Some((k, q, w))
        } else {
            None
        }
    }
}

/// Start of the whitespace run ending just before `d`.
pub open spec fn ws_run_start(s: Seq<char>, d: int) -> int
    decreases d when 0 <= d <= s.len()
{
    if d > 0 && is_space(s[d - 1]) {
        ws_run_start(s, d - 1)
    } else {
        d
    }
}

fn ws_start(v: &Vec<char>, d: usize) -> (r: usize)
    requires
        d <= v@.len(),
    ensures
        r == ws_run_start(v@, d as int),
        r <= d,
{
    let mut i: usize = d;
    while i > 0 && space_char(v[i - 1])
        invariant
            i <= d <= v@.len(),
            ws_run_start(v@, d as int) == ws_run_start(v@, i as int),
        decreases i,
    {
        i -= 1;
    }
    i
}

/// Rule two scanned from position `d`: the first dash whose surroundings
/// complete a subject-dash-type match wins.
pub open spec fn spec_rule2_from(s: Seq<char>, p0: int, d: int) -> Option<(int, int, int)>
    decreases s.len() - d when 0 <= d <= s.len()
{
    if d >= s.len() {
        None
    } else if s[d] == '-' && rule2_hit_at(s, p0, d, ws_run_start(s, d)) is Some {
        rule2_hit_at(s, p0, d, ws_run_start(s, d))
    } else {
        spec_rule2_from(s, p0, d + 1)
    }
}

pub open spec fn spec_rule2(s: Seq<char>) -> Option<(int, int, int)> {
    spec_rule2_from(s, leading_spaces(s), 0)
}

fn rule2(v: &Vec<char>) -> (r: Option<RuleMatch>)
    ensures
        match r {
            Some(m) => {
                &&& spec_rule2(v@) == Some((m.token as int, m.type_lo as int, m.subj_hi as int))
                &&& m.subj_lo == leading_spaces(v@)
                &&& m.type_hi == m.type_lo + token_seq(m.token as int).len()
                &&& m.type_hi <= v@.len()
                &&& m.subj_lo <= m.subj_hi <= v@.len()
                &&& m.type_lo <= m.type_hi
            },
            None => spec_rule2(v@) is None,
        },
{
    let n = v.len();
    let p0 = ws_end(v, 0);
    proof {
        lemma_ws_run_end_bounds(v@, 0);
        lemma_leading_spaces_is_ws_run(v@);
    }
    let mut d: usize = 0;
    while d < n
        invariant
            d <= n,
            n == v@.len(),
            p0 == leading_spaces(v@),
            p0 <= n,
            spec_rule2_from(v@, p0 as int, 0) == spec_rule2_from(v@, p0 as int, d as int),
        decreases n - d,
    {
        if v[d] == '-' {
            let w = ws_start(v, d);
            let q = ws_end(v, d + 1);
            proof {
                lemma_ws_run_end_bounds(v@, d + 1);
            }
            let k = token_at(v, q);
            if k != 10 {
                let tlen = token_vec(k).len();
                assert(q + tlen <= n) by {
                    assert(fold_match_at(v@, q as int, token_seq(k as int)));
                }
                let e = suffix_end(v, q + tlen);
                let boundary_ok = e == n || !word_char(v[e]);
                if boundary_ok && check_no_newline(v, e, n) && w > p0 && check_no_newline(
                    v,
                    p0,
                    w,
                ) {
                    return Some(
                        RuleMatch {
                            token: k,
                            type_lo: q,
                            type_hi: q + tlen,
                            subj_lo: p0,
                            subj_hi: w,
                        },
                    );
                }
            }
        }
        d += 1;
    }
    None
}

/// One attempt of rule three at whitespace position `e1`: a type token with
/// suffix stands at the end of the whitespace run, at a word boundary.
pub open spec fn rule3_hit_at(s: Seq<char>, p0: int, e1: int) -> Option<(int, int, int)> {
    let q = ws_run_end(s, e1);
    let k = spec_token_at(s, q);
    if k == 10 {
        None
    } else {
        let e = spec_suffix_end(s, q + token_seq(k).len());
        if (e == s.len() || !is_word(s[e])) && e1 > p0 && no_newline(s, p0, e1) {
            Some((k, q, e1))
        } else {
            None
        }
    }
}

/// Rule three scanned from position `e1`: the earliest whitespace position
/// followed by a type token wins, and the subject is everything before it.
pub open spec fn spec_rule3_from(s: Seq<char>, p0: int, e1: int) -> Option<(int, int, int)>
    decreases s.len() - e1 when 0 <= e1 <= s.len()
{
    if e1 >= s.len() {
        None
    } else if is_space(s[e1]) && rule3_hit_at(s, p0, e1) is Some {
        rule3_hit_at(s, p0, e1)
    } else {
        spec_rule3_from(s, p0, e1 + 1)
    }
}

pub open spec fn spec_rule3(s: Seq<char>) -> Option<(int, int, int)> {
    spec_rule3_from(s, leading_spaces(s), 0)
}

fn rule3(v: &Vec<char>) -> (r: Option<RuleMatch>)
    ensures
        match r {
            Some(m) => {
                &&& spec_rule3(v@) == Some((m.token as int, m.type_lo as int, m.subj_hi as int))
                &&& m.subj_lo == leading_spaces(v@)
                &&& m.type_hi == m.type_lo + token_seq(m.token as int).len()
                &&& m.type_hi <= v@.len()
                &&& m.subj_lo <= m.subj_hi <= v@.len()
                &&& m.type_lo <= m.type_hi
            },
            None => spec_rule3(v@) is None,
        },
{
    let n = v.len();
    let p0 = ws_end(v, 0);
    proof {
        lemma_ws_run_end_bounds(v@, 0);
        lemma_leading_spaces_is_ws_run(v@);
    }
    let mut e1: usize = 0;
    while e1 < n
        invariant
            e1 <= n,
            n == v@.len(),
            p0 == leading_spaces(v@),
            p0 <= n,
            spec_rule3_from(v@, p0 as int, 0) == spec_rule3_from(v@, p0 as int, e1 as int),
        decreases n - e1,
    {
        if space_char(v[e1]) {
            let q = ws_end(v, e1);
            proof {
                lemma_ws_run_end_bounds(v@, e1 as int);
            }
            let k = token_at(v, q);
            if k != 10 {
                let tlen = token_vec(k).len();
                assert(q + tlen <= n) by {
                    assert(fold_match_at(v@, q as int, token_seq(k as int)));
                }
                let e = suffix_end(v, q + tlen);
                let boundary_ok = e == n || !word_char(v[e]);
                if boundary_ok && e1 > p0 && check_no_newline(v, p0, e1) {
                    return Some(
                        RuleMatch {
                            token: k,
                            type_lo: q,
                            type_hi: q + tlen,
                            subj_lo: p0,
                            subj_hi: e1,
                        },
                    );
                }
            }
        }
        e1 += 1;
    }
    None
}


/// The alphanumeric characters of a prefix, in order.
pub open spec fn alnum_only_upto(s: Seq<char>, i: int) -> Seq<char>
    decreases i,
{
    if i <= 0 {
        Seq::empty()
    } else if crate::chars::is_alnum(s[i - 1]) {
        alnum_only_upto(s, i - 1).push(s[i - 1])
    } else {
        alnum_only_upto(s, i - 1)
    }
}

pub open spec fn spec_alnum_only(s: Seq<char>) -> Seq<char> {
    alnum_only_upto(s, s.len() as int)
}

/// A token reads as a course code: at least two alphanumeric characters,
/// every one a digit or an uppercase letter.
pub open spec fn spec_code_like_token(tok: Seq<char>) -> bool {
    let c = spec_alnum_only(tok);
    c.len() >= 2 && forall|j: int|
        0 <= j < c.len() ==> is_digit(#[trigger] c[j]) || is_upper(c[j])
}

fn code_like_token(v: &Vec<char>) -> (r: bool)
    ensures
        r == spec_code_like_token(v@),
{
    let mut c: Vec<char> = Vec::new();
    let mut i: usize = 0;
    while i < v.len()
        invariant
            i <= v@.len(),
            c@ == alnum_only_upto(v@, i as int),
        decreases v@.len() - i,
    {
        if alnum_char(v[i]) {
            c.push(v[i]);
        }
        i += 1;
    }
    if c.len() < 2 {
        return false;
    }
    let mut j: usize = 0;
    while j < c.len()
        invariant
            j <= c@.len(),
            c@.len() >= 2,
            c@ == spec_alnum_only(v@),
            forall|q: int| 0 <= q < j ==> is_digit(#[trigger] c@[q]) || is_upper(c@[q]),
        decreases c@.len() - j,
    {
        if !(digit_c(c[j]) || upper_char(c[j])) {
            return false;
        }
        j += 1;
    }
    true
}

/// A subject reads as a course code: after whitespace normalization it is
/// nonempty and holds a digit or a code-like word.
pub open spec fn spec_code_like_subject(subject: Seq<char>) -> bool {
    let cleaned = spec_collapse_ws(spec_trim(subject));
    &&& cleaned.len() > 0
    &&& (crate::text::contains_digit(cleaned) || exists|j: int|
        0 <= j < crate::text::spec_split_ws(cleaned).len() && spec_code_like_token(
            #[trigger] crate::text::spec_split_ws(cleaned)[j],
        ))
}

pub fn code_like_subject(v: &Vec<char>) -> (r: bool)
    ensures
        r == spec_code_like_subject(v@),
{
    let t = trim(v);
    let cleaned = collapse_whitespace(&t);
    if cleaned.len() == 0 {
        return false;
    }
    if crate::text::any_digit(&cleaned) {
        return true;
    }
    let words = crate::text::split_ws(&cleaned);
    let ghost wspec = crate::text::spec_split_ws(cleaned@);
    let mut j: usize = 0;
    while j < words.len()
        invariant
            j <= words@.len(),
            words@.map_values(|w: Vec<char>| w@) == wspec,
            wspec == crate::text::spec_split_ws(cleaned@),
            cleaned@ == spec_collapse_ws(spec_trim(v@)),
            cleaned@.len() > 0,
            forall|q: int| 0 <= q < j ==> !spec_code_like_token(#[trigger] wspec[q]),
        decreases words@.len() - j,
    {
        if code_like_token(&words[j]) {
            assert(wspec[j as int] == words@.map_values(|w: Vec<char>| w@)[j as int]);
            assert(spec_code_like_subject(v@)) by {
                assert(cleaned@ == spec_collapse_ws(spec_trim(v@)));
                assert(spec_code_like_token(wspec[j as int]));
            }
            return true;
        }
        assert(wspec[j as int] == words@.map_values(|w: Vec<char>| w@)[j as int]);
        j += 1;
    }
    assert(!spec_code_like_subject(v@)) by {
        assert(cleaned@ == spec_collapse_ws(spec_trim(v@)));
        assert(forall|q: int| 0 <= q < wspec.len() ==> !spec_code_like_token(
            #[trigger] wspec[q],
        ));
    }
    false
}

/// Equality up to ASCII case, leaving accented letters exact.
pub open spec fn ascii_fold_eq(a: Seq<char>, b: Seq<char>) -> bool {
    a.len() == b.len() && forall|j: int|
        0 <= j < a.len() ==> to_ascii_lower(a[j]) == to_ascii_lower(#[trigger] b[j])
}

fn ascii_fold_eq_exec(a: &Vec<char>, b: &Vec<char>) -> (r: bool)
    ensures
        r == ascii_fold_eq(a@, b@),
{
    if a.len() != b.len() {
        return false;
    }
    let mut j: usize = 0;
    while j < a.len()
        invariant
            j <= a@.len(),
            a@.len() == b@.len(),
            forall|q: int| 0 <= q < j ==> to_ascii_lower(a@[q]) == to_ascii_lower(
                #[trigger] b@[q],
            ),
        decreases a@.len() - j,
    {
        if ascii_lower_of(a[j]) != ascii_lower_of(b[j]) {
            return false;
        }
        j += 1;
    }
    true
}

pub open spec fn projet_word() -> Seq<char> {
    seq!['p', 'r', 'o', 'j', 'e', 't']
}

pub open spec fn project_word() -> Seq<char> {
    seq!['p', 'r', 'o', 'j', 'e', 'c', 't']
}

pub open spec fn reunion_word() -> Seq<char> {
    seq!['r', 'e', 'u', 'n', 'i', 'o', 'n']
}

pub open spec fn reunion_accent_word() -> Seq<char> {
    seq!['r', '\u{e9}', 'u', 'n', 'i', 'o', 'n']
}

/// A detected type whose trailing-type split may be discarded: a project or
/// meeting word, compared up to ASCII case only, so the all-caps accented
/// meeting spelling stays non-collapsible.
pub open spec fn spec_collapsible_type(t: Seq<char>) -> bool {
    ||| ascii_fold_eq(t, projet_word())
    ||| ascii_fold_eq(t, project_word())
    ||| ascii_fold_eq(t, reunion_word())
    ||| ascii_fold_eq(t, reunion_accent_word())
}

pub fn collapsible_type(t: &Vec<char>) -> (r: bool)
    ensures
        r == spec_collapsible_type(t@),
{
    let mut w1: Vec<char> = Vec::new();
    w1.push('p');
    w1.push('r');
    w1.push('o');
    w1.push('j');
    w1.push('e');
    w1.push('t');
    assert(w1@ =~= projet_word());
    if ascii_fold_eq_exec(t, &w1) {
        return true;
    }
    let mut w2: Vec<char> = Vec::new();
    w2.push('p');
    w2.push('r');
    w2.push('o');
    w2.push('j');
    w2.push('e');
    w2.push('c');
    w2.push('t');
    assert(w2@ =~= project_word());
    if ascii_fold_eq_exec(t, &w2) {
        return true;
    }
    let mut w3: Vec<char> = Vec::new();
    w3.push('r');
    w3.push('e');
    w3.push('u');
    w3.push('n');
    w3.push('i');
    w3.push('o');
    w3.push('n');
    assert(w3@ =~= reunion_word());
    if ascii_fold_eq_exec(t, &w3) {
        return true;
    }
    let mut w4: Vec<char> = Vec::new();
    w4.push('r');
    w4.push('\u{e9}');
    w4.push('u');
    w4.push('n');
    w4.push('i');
    w4.push('o');
    w4.push('n');
    assert(w4@ =~= reunion_accent_word());
    ascii_fold_eq_exec(t, &w4)
}

/// The trailing-type split is discarded when the type is collapsible and the
/// extracted subject reads as natural language rather than a course code.
pub open spec fn spec_preserve_whole(detected: Seq<char>, candidate: Seq<char>) -> bool {
    spec_collapsible_type(detected) && !spec_code_like_subject(candidate)
}

pub fn preserve_whole(detected: &Vec<char>, candidate: &Vec<char>) -> (r: bool)
    ensures
        r == spec_preserve_whole(detected@, candidate@),
{
    collapsible_type(detected) && !code_like_subject(candidate)
}


/// End of the run of decimal digits from `q`.
pub open spec fn digits_run_end(s: Seq<char>, q: int) -> int
    decreases s.len() - q when 0 <= q <= s.len()
{
    if q < s.len() && is_digit(s[q]) {
        digits_run_end(s, q + 1)
    } else {
        q
    }
}

proof fn lemma_digits_run_end_bounds(s: Seq<char>, q: int)
    requires
        0 <= q <= s.len(),
    ensures
        q <= digits_run_end(s, q) <= s.len(),
        forall|j: int| q <= j < digits_run_end(s, q) ==> is_digit(s[j]),
    decreases s.len() - q,
{
    if q < s.len() && is_digit(s[q]) {
        lemma_digits_run_end_bounds(s, q + 1);
    }
}

fn digits_end_exec(v: &Vec<char>, q: usize) -> (r: usize)
    requires
        q <= v@.len(),
    ensures
        r == digits_run_end(v@, q as int),
        q <= r <= v@.len(),
        forall|j: int| q <= j < r ==> is_digit(v@[j]),
{
    let n = v.len();
    let mut i: usize = q;
    while i < n && digit_c(v[i])
        invariant
            q <= i <= n,
            n == v@.len(),
            digits_run_end(v@, q as int) == digits_run_end(v@, i as int),
            forall|j: int| q <= j < i ==> is_digit(v@[j]),
        decreases n - i,
    {
        i += 1;
    }
    proof {
        lemma_digits_run_end_bounds(v@, i as int);
    }
    i
}

pub open spec fn is_pre_date_sep(c: char) -> bool {
    c == '-' || c == '\u{2013}' || c == '\u{2014}' || c == ',' || c == ':' || c == ';'
}

pub open spec fn is_date_sep(c: char) -> bool {
    c == '/' || c == '.' || c == '-'
}

/// The fields of a trailing date expression read at position `p`: day, month,
/// year value and the number of year digits, when the tail of the line from
/// `p` on is exactly an optional separator, an optionally parenthesized
/// `D/M/Y` group (separators `/`, `.` or `-`), and nothing more.
pub open spec fn spec_tail_date(s: Seq<char>, p: int) -> Option<(int, int, int, int)> {
    let i1 = ws_run_end(s, p);
    let i2 = if i1 < s.len() && is_pre_date_sep(s[i1]) {
        i1 + 1
    } else {
        i1
    };
    let i3 = ws_run_end(s, i2);
    let i4 = if i3 < s.len() && s[i3] == '(' {
        i3 + 1
    } else {
        i3
    };
    let i5 = ws_run_end(s, i4);
    let r1 = digits_run_end(s, i5);
    if 1 <= r1 - i5 <= 2 && r1 < s.len() && is_date_sep(s[r1]) {
        let r2 = digits_run_end(s, r1 + 1);
        if 1 <= r2 - (r1 + 1) <= 2 && r2 < s.len() && is_date_sep(s[r2]) {
            let r3 = digits_run_end(s, r2 + 1);
            if r3 - (r2 + 1) == 2 || r3 - (r2 + 1) == 4 {
                let i6 = ws_run_end(s, r3);
                let i7 = if i6 < s.len() && s[i6] == ')' {
                    i6 + 1
                } else {
                    i6
                };
                let i8 = ws_run_end(s, i7);
                if i8 == s.len() {
                    Some(
                        (
                            spec_digits_value(s, i5, r1 - i5),
                            spec_digits_value(s, r1 + 1, r2 - (r1 + 1)),
                            r3 - (r2 + 1),
                            spec_digits_value(s, r2 + 1, r3 - (r2 + 1)),
                        ),
                    )
                } else {
                    None
                }
            } else {
                None
            }
        } else {
            None
        }
    } else {
        None
    }
}

fn pre_date_sep(c: char) -> (r: bool)
    ensures
        r == is_pre_date_sep(c),
{
    c == '-' || c == '\u{2013}' || c == '\u{2014}' || c == ',' || c == ':' || c == ';'
}

fn date_sep(c: char) -> (r: bool)
    ensures
        r == is_date_sep(c),
{
    c == '/' || c == '.' || c == '-'
}

fn tail_date(v: &Vec<char>, p: usize) -> (r: Option<(u32, u32, u32, u32)>)
    requires
        p <= v@.len(),
    ensures
        match r {
            Some(t) => spec_tail_date(v@, p as int) == Some(
                (t.0 as int, t.1 as int, t.2 as int, t.3 as int),
            ),
            None => spec_tail_date(v@, p as int) is None,
        },
{
    let n = v.len();
    let i1 = ws_end(v, p);
    let i2 = if i1 < n && pre_date_sep(v[i1]) {
        i1 + 1
    } else {
        i1
    };
    let i3 = ws_end(v, i2);
    let i4 = if i3 < n && v[i3] == '(' {
        i3 + 1
    } else {
        i3
    };
    let i5 = ws_end(v, i4);
    let r1 = digits_end_exec(v, i5);
    if !(1 <= r1 - i5 && r1 - i5 <= 2 && r1 < n && date_sep(v[r1])) {
        return None;
    }
    let r2 = digits_end_exec(v, r1 + 1);
    if !(1 <= r2 - (r1 + 1) && r2 - (r1 + 1) <= 2 && r2 < n && date_sep(v[r2])) {
        return None;
    }
    let r3 = digits_end_exec(v, r2 + 1);
    if !(r3 - (r2 + 1) == 2 || r3 - (r2 + 1) == 4) {
        return None;
    }
    let i6 = ws_end(v, r3);
    let i7 = if i6 < n && v[i6] == ')' {
        i6 + 1
    } else {
        i6
    };
    let i8 = ws_end(v, i7);
    if i8 != n {
        return None;
    }
    let day = digits_value(v, i5, r1 - i5);
    let month = digits_value(v, r1 + 1, r2 - (r1 + 1));
    let year = digits_value(v, r2 + 1, r3 - (r2 + 1));
    match (day, month, year) {
        (Some(d), Some(m), Some(y)) => Some((d, m, (r3 - (r2 + 1)) as u32, y)),
        _ => None,
    }
}

/// The earliest position at or after `p` where a trailing date expression
/// begins.
pub open spec fn spec_date_scan(s: Seq<char>, p: int) -> Option<int>
    decreases s.len() - p when 0 <= p <= s.len()
{
    if spec_tail_date(s, p) is Some {
        Some(p)
    } else if p < s.len() {
        spec_date_scan(s, p + 1)
    } else {
        None
    }
}

/// A day, month and year from a trailing date expression name a real
/// calendar date in the accepted range; two-digit years count from 2000.
pub open spec fn spec_valid_trailing_date(d: int, m: int, ylen: int, y: int) -> bool {
    let year = if ylen == 2 {
        2000 + y
    } else {
        y
    };
    1900 <= year <= 2200 && is_valid_ymd(year, m, d)
}

fn valid_trailing_date(d: u32, m: u32, ylen: u32, y: u32) -> (r: bool)
    requires
        d < 100,
        m < 100,
        y < 10000,
    ensures
        r == spec_valid_trailing_date(d as int, m as int, ylen as int, y as int),
{
    let year: u32 = if ylen == 2 {
        2000 + y
    } else {
        y
    };
    1900 <= year && year <= 2200 && 1 <= m && m <= 12 && 1 <= d && d <= days_in_month(year, m)
}

/// The subject with a calendar-valid trailing date expression removed, after
/// whitespace normalization; a date that does not name a real calendar day
/// is left in place, and so is a date that is the whole subject.
pub open spec fn spec_strip_trailing_date(subject: Seq<char>) -> Seq<char> {
    let compact = spec_collapse_ws(spec_trim(subject));
    match spec_date_scan(compact, 0) {
        None => compact,
        Some(p) => {
            let t = spec_tail_date(compact, p)->0;
            if !spec_valid_trailing_date(t.0, t.1, t.2, t.3) {
                compact
            } else {
                let stripped = spec_collapse_ws(spec_trim(compact.subrange(0, p)));
                if stripped.len() == 0 {
                    compact
                } else {
                    stripped
                }
            }
        },
    }
}

/// Strips a trailing date expression from the subject when it names a real
/// calendar date.
pub fn strip_trailing_date(subject: &Vec<char>) -> (r: Vec<char>)
    ensures
        r@ == spec_strip_trailing_date(subject@),
{
    let t0 = trim(subject);
    let compact = collapse_whitespace(&t0);
    let n = compact.len();
    let mut p: usize = 0;
    loop
        invariant
            p <= n,
            n == compact@.len(),
            compact@ == spec_collapse_ws(spec_trim(subject@)),
            spec_date_scan(compact@, 0) == spec_date_scan(compact@, p as int),
        ensures
            p <= n,
            compact@ == spec_collapse_ws(spec_trim(subject@)),
            match spec_date_scan(compact@, 0) {
                Some(q) => q == p && spec_tail_date(compact@, p as int) is Some,
                None => p == n && spec_tail_date(compact@, p as int) is None,
            },
        decreases n - p,
    {
        if tail_date(&compact, p).is_some() {
            break;
        }
        if p == n {
            break;
        }
        p += 1;
    }
    match tail_date(&compact, p) {
        None => compact,
        Some(t) => {
            assert(digit_values_small(compact@, p as int, t)) by {
                lemma_tail_date_small(compact@, p as int, t);
            }
            if !valid_trailing_date(t.0, t.1, t.2, t.3) {
                compact
            } else {
                let base = crate::text::subvec(&compact, 0, p);
                let tb = trim(&base);
                let stripped = collapse_whitespace(&tb);
                if stripped.len() == 0 {
                    compact
                } else {
                    stripped
                }
            }
        },
    }
}

/// The numeric fields read by a trailing date expression are bounded by the
/// number of digits read.
pub open spec fn digit_values_small(s: Seq<char>, p: int, t: (u32, u32, u32, u32)) -> bool {
    t.0 < 100 && t.1 < 100 && t.3 < 10000
}

proof fn lemma_tail_date_small(s: Seq<char>, p: int, t: (u32, u32, u32, u32))
    requires
        0 <= p <= s.len(),
        spec_tail_date(s, p) == Some((t.0 as int, t.1 as int, t.2 as int, t.3 as int)),
    ensures
        digit_values_small(s, p, t),
{
    let i1 = ws_run_end(s, p);
    lemma_ws_run_end_bounds(s, p);
    let i2 = if i1 < s.len() && is_pre_date_sep(s[i1]) {
        i1 + 1
    } else {
        i1
    };
    lemma_ws_run_end_bounds(s, i2);
    let i3 = ws_run_end(s, i2);
    let i4 = if i3 < s.len() && s[i3] == '(' {
        i3 + 1
    } else {
        i3
    };
    lemma_ws_run_end_bounds(s, i4);
    let i5 = ws_run_end(s, i4);
    lemma_digits_run_end_bounds(s, i5);
    let r1 = digits_run_end(s, i5);
    lemma_digits_run_end_bounds(s, r1 + 1);
    let r2 = digits_run_end(s, r1 + 1);
    lemma_digits_run_end_bounds(s, r2 + 1);
    let r3 = digits_run_end(s, r2 + 1);
    lemma_digits_value_bound_pub(s, i5, r1 - i5);
    lemma_digits_value_bound_pub(s, r1 + 1, r2 - (r1 + 1));
    lemma_digits_value_bound_pub(s, r2 + 1, r3 - (r2 + 1));
}

proof fn lemma_digits_value_bound_pub(s: Seq<char>, from: int, len: int)
    ensures
        0 <= spec_digits_value(s, from, len),
        len <= 1 ==> spec_digits_value(s, from, len) < 10,
        len <= 2 ==> spec_digits_value(s, from, len) < 100,
        len <= 3 ==> spec_digits_value(s, from, len) < 1000,
        len <= 4 ==> spec_digits_value(s, from, len) < 10000,
    decreases len,
{
    if len > 0 {
        lemma_digits_value_bound_pub(s, from, len - 1);
    }
}

pub open spec fn autre_word() -> Seq<char> {
    seq!['A', 'u', 't', 'r', 'e']
}

/// The raw course type text and subject text of a trimmed summary, before
/// uppercasing and trailing-date stripping: the three rules in order, the
/// whole-title preservation on the third, and the fallback.
pub open spec fn spec_classify_raw(s: Seq<char>) -> (Seq<char>, Seq<char>) {
    let p0 = leading_spaces(s);
    if spec_rule1(s) is Some {
        let (k, sub_lo) = spec_rule1(s)->0;
        (s.subrange(p0, p0 + token_seq(k).len()), s.subrange(sub_lo, s.len() as int))
    } else if spec_rule2(s) is Some {
        let (k, tlo, whi) = spec_rule2(s)->0;
        (s.subrange(tlo, tlo + token_seq(k).len()), s.subrange(p0, whi))
    } else if spec_rule3(s) is Some {
        let (k, tlo, e1) = spec_rule3(s)->0;
        let detected = s.subrange(tlo, tlo + token_seq(k).len());
        let cand = spec_trim(s.subrange(p0, e1));
        if spec_preserve_whole(detected, cand) {
            (detected, s)
        } else {
            (detected, cand)
        }
    } else {
        (autre_word(), s)
    }
}

/// The final (type, subject) of a trimmed summary: the type uppercased, the
/// subject trimmed and stripped of a calendar-valid trailing date.
pub open spec fn spec_classify(s: Seq<char>) -> (Seq<char>, Seq<char>) {
    let raw = spec_classify_raw(s);
    (
        raw.0.map_values(|c: char| crate::chars::to_upper(c)),
        spec_strip_trailing_date(spec_trim(raw.1)),
    )
}

/// Splits a trimmed summary into its uppercased course type code and its
/// subject.
pub fn classify_summary(v: &Vec<char>) -> (r: (Vec<char>, Vec<char>))
    ensures
        r.0@ == spec_classify(v@).0,
        r.1@ == spec_classify(v@).1,
        r.0@.len() > 0,
{
    let ghost raw = spec_classify_raw(v@);
    let mut type_raw: Vec<char>;
    let mut subj_raw: Vec<char>;
    if let Some(m) = rule1(v) {
        type_raw = crate::text::subvec(v, m.type_lo, m.type_hi);
        subj_raw = crate::text::subvec(v, m.subj_lo, m.subj_hi);
    } else if let Some(m) = rule2(v) {
        type_raw = crate::text::subvec(v, m.type_lo, m.type_hi);
        subj_raw = crate::text::subvec(v, m.subj_lo, m.subj_hi);
    } else if let Some(m) = rule3(v) {
        type_raw = crate::text::subvec(v, m.type_lo, m.type_hi);
        let cand0 = crate::text::subvec(v, m.subj_lo, m.subj_hi);
        let cand = trim(&cand0);
        if preserve_whole(&type_raw, &cand) {
            subj_raw = crate::text::subvec(v, 0, v.len());
            assert(subj_raw@ =~= v@);
        } else {
            subj_raw = cand;
        }
    } else {
        type_raw = Vec::new();
        type_raw.push('A');
        type_raw.push('u');
        type_raw.push('t');
        type_raw.push('r');
        type_raw.push('e');
        assert(type_raw@ =~= autre_word());
        subj_raw = crate::text::subvec(v, 0, v.len());
        assert(subj_raw@ =~= v@);
    }
    assert(type_raw@ == raw.0 && subj_raw@ == raw.1);
    let type_up = crate::text::to_upper_vec(&type_raw);
    let subj_t = trim(&subj_raw);
    let subj = strip_trailing_date(&subj_t);
    assert(type_up@.len() > 0) by {
        assert(raw.0.len() > 0);
    }
    (type_up, subj)
}


/// A hit of the dash rule carries a real token match at its type position.
pub proof fn lemma_rule2_token(s: Seq<char>, p0: int, d: int)
    requires
        0 <= d <= s.len(),
    ensures
        spec_rule2_from(s, p0, d) is Some ==> {
            let (k, tlo, whi) = spec_rule2_from(s, p0, d)->0;
            fold_match_at(s, tlo, token_seq(k))
        },
    decreases s.len() - d,
{
    if d < s.len() {
        if s[d] == '-' && rule2_hit_at(s, p0, d, ws_run_start(s, d)) is Some {
            let q = ws_run_end(s, d + 1);
            let k = spec_token_at(s, q);
            assert(spec_rule2_from(s, p0, d) == rule2_hit_at(s, p0, d, ws_run_start(s, d)));
            assert((spec_rule2_from(s, p0, d)->0).0 == k && (spec_rule2_from(s, p0, d)->0).1
                == q);
            assert(k != 10);
            assert(fold_match_at(s, q, token_seq(k)));
        } else {
            lemma_rule2_token(s, p0, d + 1);
        }
    }
}

/// A hit of the trailing-type rule carries a real token match at its type
/// position.
pub proof fn lemma_rule3_token(s: Seq<char>, p0: int, e1: int)
    requires
        0 <= e1 <= s.len(),
    ensures
        spec_rule3_from(s, p0, e1) is Some ==> {
            let (k, tlo, ee) = spec_rule3_from(s, p0, e1)->0;
            fold_match_at(s, tlo, token_seq(k))
        },
    decreases s.len() - e1,
{
    if e1 < s.len() {
        if is_space(s[e1]) && rule3_hit_at(s, p0, e1) is Some {
            let q = ws_run_end(s, e1);
            let k = spec_token_at(s, q);
            assert(spec_rule3_from(s, p0, e1) == rule3_hit_at(s, p0, e1));
            assert((spec_rule3_from(s, p0, e1)->0).0 == k && (spec_rule3_from(s, p0, e1)->0).1
                == q);
            assert(k != 10);
            assert(fold_match_at(s, q, token_seq(k)));
        } else {
            lemma_rule3_token(s, p0, e1 + 1);
        }
    }
}

/// The classified type text is never empty: every rule yields a type token
/// of at least two characters, and the fallback code has five.
pub proof fn lemma_type_nonempty(s: Seq<char>)
    ensures
        spec_classify(s).0.len() > 0,
        spec_classify_raw(s).0.len() > 0,
{
    assert forall|k: int| token_seq(k).len() >= 2 by {}
    let p0 = leading_spaces(s);
    if spec_rule1(s) is Some {
        let (k, sublo) = spec_rule1(s)->0;
        assert(fold_match_at(s, p0, token_seq(k)));
    } else if spec_rule2(s) is Some {
        let (k, tlo, whi) = spec_rule2(s)->0;
        lemma_rule2_token(s, p0, 0);
        assert(fold_match_at(s, tlo, token_seq(k)));
    } else if spec_rule3(s) is Some {
        let (k, tlo, ee) = spec_rule3(s)->0;
        lemma_rule3_token(s, p0, 0);
        assert(fold_match_at(s, tlo, token_seq(k)));
    }
}

} // verus!
