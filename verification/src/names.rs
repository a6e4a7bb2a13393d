//! Person-name and cohort heuristics over description text: word shape tests
//! (all-caps, title-case), the cohort stop-word list, promo-line detection,
//! the person-name test, glued-name repair, and the inline capitalized-run
//! scan.

use vstd::prelude::*;
use crate::chars::{is_digit, is_space, is_upper, is_lower, is_alpha, is_alnum, is_word};
use crate::chars::{to_lower, to_ascii_lower};
use crate::chars::{
    digit_char as digit_c, space_char, word_char, alnum_char, upper_char, lower_char,
    alpha_char, lower_of, ascii_lower_of,
};
use crate::text::{
    spec_trim, spec_collapse_ws, spec_split_ws, trim, collapse_whitespace, split_ws,
    contains_digit, any_digit, insert_lex, insert_sorted, strictly_sorted, lex_lt,
};
use vstd::string::StrSliceExecFns;

verus! {

/// Equality of a character vector with a string literal.
pub fn eq_str(v: &Vec<char>, s: &str) -> (r: bool)
    ensures
        r == (v@ == s@),
{
    let n = s.unicode_len();
    if v.len() != n {
        return false;
    }
    let mut i: usize = 0;
    while i < n
        invariant
            i <= n,
            n == s@.len(),
            n == v@.len(),
            forall|j: int| 0 <= j < i ==> v@[j] == s@[j],
        decreases n - i,
    {
        if v[i] != s.get_char(i) {
            return false;
        }
        i += 1;
    }
    proof {
        assert(v@ =~= s@);
    }
    true
}

/// A word-part separator: hyphen, apostrophe, or the typographic apostrophe,
/// which is read as a plain apostrophe.
pub open spec fn is_part_sep(c: char) -> bool {
    c == '-' || c == '\'' || c == '\u{2019}'
}

fn part_sep(c: char) -> (r: bool)
    ensures
        r == is_part_sep(c),
{
    c == '-' || c == '\'' || c == '\u{2019}'
}

/// State of the word-part splitter over a prefix: closed parts and the part
/// being read.
pub open spec fn parts_state(s: Seq<char>, i: int) -> (Seq<Seq<char>>, Seq<char>)
    decreases i,
{
    if i <= 0 {
        (Seq::empty(), Seq::empty())
    } else {
        let prev = parts_state(s, i - 1);
        let c = s[i - 1];
        if is_part_sep(c) {
            if prev.1.len() > 0 {
                (prev.0.push(prev.1), Seq::empty())
            } else {
                prev
            }
        } else {
            (prev.0, prev.1.push(c))
        }
    }
}

/// The hyphen/apostrophe-separated parts of a word, each nonempty.
pub open spec fn spec_word_parts(s: Seq<char>) -> Seq<Seq<char>> {
    let st = parts_state(s, s.len() as int);
    if st.1.len() > 0 {
        st.0.push(st.1)
    } else {
        st.0
    }
}

/// Splits a word on hyphens and apostrophes.
pub fn split_word_parts(v: &Vec<char>) -> (r: Vec<Vec<char>>)
    ensures
        r@.map_values(|w: Vec<char>| w@) == spec_word_parts(v@),
{
    let mut done: Vec<Vec<char>> = Vec::new();
    let mut cur: Vec<char> = Vec::new();
    let mut i: usize = 0;
    while i < v.len()
        invariant
            i <= v@.len(),
            (done@.map_values(|w: Vec<char>| w@), cur@) == parts_state(v@, i as int),
        decreases v@.len() - i,
    {
        let c = v[i];
        if part_sep(c) {
            if cur.len() > 0 {
                let w = cur;
                done.push(w);
                cur = Vec::new();
                assert(done@.map_values(|w2: Vec<char>| w2@) =~= parts_state(
                    v@,
                    i + 1 as int,
                ).0);
            }
        } else {
            cur.push(c);
        }
        i += 1;
    }
    if cur.len() > 0 {
        done.push(cur);
        assert(done@.map_values(|w2: Vec<char>| w2@) =~= spec_word_parts(v@));
    }
    done
}

pub open spec fn spec_alpha_part(p: Seq<char>) -> bool {
    p.len() > 0 && forall|j: int| 0 <= j < p.len() ==> is_alpha(#[trigger] p[j])
}

fn alpha_part(p: &Vec<char>) -> (r: bool)
    ensures
        r == spec_alpha_part(p@),
{
    if p.len() == 0 {
        return false;
    }
    let mut i: usize = 0;
    while i < p.len()
        invariant
            i <= p@.len(),
            forall|j: int| 0 <= j < i ==> is_alpha(#[trigger] p@[j]),
        decreases p@.len() - i,
    {
        if !alpha_char(p[i]) {
            return false;
        }
        i += 1;
    }
    true
}

pub open spec fn spec_upper_part(p: Seq<char>) -> bool {
    spec_alpha_part(p) && forall|j: int| 0 <= j < p.len() ==> is_upper(#[trigger] p[j])
}

fn upper_part(p: &Vec<char>) -> (r: bool)
    ensures
        r == spec_upper_part(p@),
{
    if !alpha_part(p) {
        return false;
    }
    let mut i: usize = 0;
    while i < p.len()
        invariant
            i <= p@.len(),
            spec_alpha_part(p@),
            forall|j: int| 0 <= j < i ==> is_upper(#[trigger] p@[j]),
        decreases p@.len() - i,
    {
        if !upper_char(p[i]) {
            return false;
        }
        i += 1;
    }
    true
}

pub open spec fn spec_title_part(p: Seq<char>) -> bool {
    spec_alpha_part(p) && is_upper(p[0]) && forall|j: int|
        1 <= j < p.len() ==> is_lower(#[trigger] p[j])
}

fn title_part(p: &Vec<char>) -> (r: bool)
    ensures
        r == spec_title_part(p@),
{
    if !alpha_part(p) {
        return false;
    }
    if !upper_char(p[0]) {
        return false;
    }
    let mut i: usize = 1;
    while i < p.len()
        invariant
            1 <= i <= p@.len(),
            spec_alpha_part(p@),
            is_upper(p@[0]),
            forall|j: int| 1 <= j < i ==> is_lower(#[trigger] p@[j]),
        decreases p@.len() - i,
    {
        if !lower_char(p[i]) {
            return false;
        }
        i += 1;
    }
    true
}

/// Every hyphen/apostrophe part of the word is all uppercase.
pub open spec fn spec_upper_word(w: Seq<char>) -> bool {
    forall|j: int| 0 <= j < spec_word_parts(w).len() ==> spec_upper_part(
        #[trigger] spec_word_parts(w)[j],
    )
}

pub fn upper_word(w: &Vec<char>) -> (r: bool)
    ensures
        r == spec_upper_word(w@),
{
    let parts = split_word_parts(w);
    let mut i: usize = 0;
    while i < parts.len()
        invariant
            i <= parts@.len(),
            parts@.map_values(|p: Vec<char>| p@) == spec_word_parts(w@),
            forall|j: int| 0 <= j < i ==> spec_upper_part(#[trigger] spec_word_parts(w@)[j]),
        decreases parts@.len() - i,
    {
        assert(spec_word_parts(w@)[i as int] == parts@.map_values(|p: Vec<char>| p@)[
            i as int
        ]);
        if !upper_part(&parts[i]) {
            return false;
        }
        i += 1;
    }
    true
}

/// Every hyphen/apostrophe part of the word is title case.
pub open spec fn spec_title_word(w: Seq<char>) -> bool {
    forall|j: int| 0 <= j < spec_word_parts(w).len() ==> spec_title_part(
        #[trigger] spec_word_parts(w)[j],
    )
}

pub fn title_word(w: &Vec<char>) -> (r: bool)
    ensures
        r == spec_title_word(w@),
{
    let parts = split_word_parts(w);
    let mut i: usize = 0;
    while i < parts.len()
        invariant
            i <= parts@.len(),
            parts@.map_values(|p: Vec<char>| p@) == spec_word_parts(w@),
            forall|j: int| 0 <= j < i ==> spec_title_part(#[trigger] spec_word_parts(w@)[j]),
        decreases parts@.len() - i,
    {
        assert(spec_word_parts(w@)[i as int] == parts@.map_values(|p: Vec<char>| p@)[
            i as int
        ]);
        if !title_part(&parts[i]) {
            return false;
        }
        i += 1;
    }
    true
}

/// Every part of the word is purely alphabetic.
pub open spec fn spec_alpha_word(w: Seq<char>) -> bool {
    forall|j: int| 0 <= j < spec_word_parts(w).len() ==> spec_alpha_part(
        #[trigger] spec_word_parts(w)[j],
    )
}

fn alpha_word(w: &Vec<char>) -> (r: bool)
    ensures
        r == spec_alpha_word(w@),
{
    let parts = split_word_parts(w);
    let mut i: usize = 0;
    while i < parts.len()
        invariant
            i <= parts@.len(),
            parts@.map_values(|p: Vec<char>| p@) == spec_word_parts(w@),
            forall|j: int| 0 <= j < i ==> spec_alpha_part(#[trigger] spec_word_parts(w@)[j]),
        decreases parts@.len() - i,
    {
        assert(spec_word_parts(w@)[i as int] == parts@.map_values(|p: Vec<char>| p@)[
            i as int
        ]);
        if !alpha_part(&parts[i]) {
            return false;
        }
        i += 1;
    }
    true
}

/// The normalized form of a token: alphanumeric characters only, lowercased.
pub open spec fn norm_upto(s: Seq<char>, i: int) -> Seq<char>
    decreases i,
{
    if i <= 0 {
        Seq::empty()
    } else if is_alnum(s[i - 1]) {
        norm_upto(s, i - 1).push(to_lower(s[i - 1]))
    } else {
        norm_upto(s, i - 1)
    }
}

pub open spec fn spec_norm_token(s: Seq<char>) -> Seq<char> {
    norm_upto(s, s.len() as int)
}

pub fn normalize_token(v: &Vec<char>) -> (r: Vec<char>)
    ensures
        r@ == spec_norm_token(v@),
{
    let mut r: Vec<char> = Vec::new();
    let mut i: usize = 0;
    while i < v.len()
        invariant
            i <= v@.len(),
            r@ == norm_upto(v@, i as int),
        decreases v@.len() - i,
    {
        if alnum_char(v[i]) {
            r.push(lower_of(v[i]));
        }
        i += 1;
    }
    r
}

/// The closed vocabulary of cohort and administrative words: a normalized
/// token that equals one of them never names a person.
pub open spec fn spec_stop_token(t: Seq<char>) -> bool {
    ||| t == "licence"@
    ||| t == "license"@
    ||| t == "master"@
    ||| t == "parcours"@
    ||| t == "promo"@
    ||| t == "promotion"@
    ||| t == "groupe"@
    ||| t == "group"@
    ||| t == "mineure"@
    ||| t == "mineures"@
    ||| t == "majeure"@
    ||| t == "majeures"@
    ||| t == "alternant"@
    ||| t == "alternants"@
    ||| t == "classique"@
    ||| t == "classiques"@
    ||| t == "option"@
    ||| t == "module"@
    ||| t == "semestre"@
    ||| t == "ue"@
    ||| t == "cours"@
    ||| t == "cm"@
    ||| t == "td"@
    ||| t == "tp"@
    ||| t == "exam"@
    ||| t == "examen"@
    ||| t == "projet"@
    ||| t == "reunion"@
    ||| t == "r\u{e9}union"@
    ||| t == "stage"@
    ||| t == "soutenance"@
    ||| t == "rattrapage"@
    ||| t == "alt"@
    ||| t == "cla"@
}

pub fn stop_token(t: &Vec<char>) -> (r: bool)
    ensures
        r == spec_stop_token(t@),
{
    eq_str(t, "licence") || eq_str(t, "license") || eq_str(t, "master") || eq_str(
        t,
        "parcours",
    ) || eq_str(t, "promo") || eq_str(t, "promotion") || eq_str(t, "groupe") || eq_str(
        t,
        "group",
    ) || eq_str(t, "mineure") || eq_str(t, "mineures") || eq_str(t, "majeure") || eq_str(
        t,
        "majeures",
    ) || eq_str(t, "alternant") || eq_str(t, "alternants") || eq_str(t, "classique")
        || eq_str(t, "classiques") || eq_str(t, "option") || eq_str(t, "module") || eq_str(
        t,
        "semestre",
    ) || eq_str(t, "ue") || eq_str(t, "cours") || eq_str(t, "cm") || eq_str(t, "td")
        || eq_str(t, "tp") || eq_str(t, "exam") || eq_str(t, "examen") || eq_str(t, "projet")
        || eq_str(t, "reunion") || eq_str(t, "r\u{e9}union") || eq_str(t, "stage") || eq_str(
        t,
        "soutenance",
    ) || eq_str(t, "rattrapage") || eq_str(t, "alt") || eq_str(t, "cla")
}

/// An academic-level mark such as M1, L3 or D2 stands somewhere in the text
/// at word boundaries, in either case.
pub open spec fn spec_has_mld(s: Seq<char>) -> bool {
    exists|i: int|
        {
            &&& 0 <= i
            &&& i + 2 <= s.len()
            &&& (to_ascii_lower(s[i]) == 'm' || to_ascii_lower(s[i]) == 'l'
                || to_ascii_lower(s[i]) == 'd')
            &&& is_digit(s[i + 1])
            &&& (i == 0 || !is_word(s[i - 1]))
            &&& (i + 2 == s.len() || !is_word(s[i + 2]))
        }
}

pub fn has_mld(v: &Vec<char>) -> (r: bool)
    ensures
        r == spec_has_mld(v@),
{
    let n = v.len();
    if n < 2 {
        return false;
    }
    let mut i: usize = 0;
    while i <= n - 2
        invariant
            n == v@.len(),
            n >= 2,
            i <= n,
            forall|q: int|
                0 <= q < i ==> !{
                    &&& q + 2 <= v@.len()
                    &&& (to_ascii_lower(v@[q]) == 'm' || to_ascii_lower(v@[q]) == 'l'
                        || to_ascii_lower(v@[q]) == 'd')
                    &&& is_digit(v@[q + 1])
                    &&& (q == 0 || !is_word(v@[q - 1]))
                    &&& (q + 2 == v@.len() || !is_word(v@[q + 2]))
                },
        decreases n - i,
    {
        let c = ascii_lower_of(v[i]);
        if (c == 'm' || c == 'l' || c == 'd') && digit_c(v[i + 1]) && (i == 0 || !word_char(
            v[i - 1],
        )) && (i + 2 == n || !word_char(v[i + 2])) {
            return true;
        }
        i += 1;
    }
    assert(forall|q: int|
        0 <= q && q + 2 <= v@.len() ==> !{
            &&& (to_ascii_lower(v@[q]) == 'm' || to_ascii_lower(v@[q]) == 'l'
                || to_ascii_lower(v@[q]) == 'd')
            &&& is_digit(v@[q + 1])
            &&& (q == 0 || !is_word(v@[q - 1]))
            &&& (q + 2 == v@.len() || !is_word(v@[q + 2]))
        });
    false
}

/// A word of the line marks it as cohort-like: it holds a digit, an
/// academic-level mark, or a cohort stop word, once normalized.
pub open spec fn spec_promo_word(w: Seq<char>) -> bool {
    let nm = spec_norm_token(w);
    nm.len() > 0 && (contains_digit(nm) || spec_has_mld(nm) || spec_stop_token(nm))
}

pub open spec fn spec_promo_line(line: Seq<char>) -> bool {
    exists|j: int|
        0 <= j < spec_split_ws(line).len() && spec_promo_word(#[trigger] spec_split_ws(line)[j])
}

/// Whether a description line reads as a cohort/class line rather than a
/// list of person names.
pub fn likely_promo_line(line: &Vec<char>) -> (r: bool)
    ensures
        r == spec_promo_line(line@),
{
    let words = split_ws(line);
    let ghost ws = spec_split_ws(line@);
    let mut j: usize = 0;
    while j < words.len()
        invariant
            j <= words@.len(),
            words@.map_values(|w: Vec<char>| w@) == ws,
            ws == spec_split_ws(line@),
            forall|q: int| 0 <= q < j ==> !spec_promo_word(#[trigger] ws[q]),
        decreases words@.len() - j,
    {
        assert(ws[j as int] == words@.map_values(|w: Vec<char>| w@)[j as int]);
        let nm = normalize_token(&words[j]);
        if nm.len() > 0 {
            if any_digit(&nm) || has_mld(&nm) || stop_token(&nm) {
                return true;
            }
        }
        j += 1;
    }
    false
}


pub open spec fn contains_seq_at(s: Seq<char>, i: int, w: Seq<char>) -> bool {
    0 <= i && i + w.len() <= s.len() && forall|j: int|
        0 <= j < w.len() ==> s[i + j] == #[trigger] w[j]
}

pub open spec fn spec_contains_seq(s: Seq<char>, w: Seq<char>) -> bool {
    exists|i: int| contains_seq_at(s, i, w)
}

fn seq_match_at(v: &Vec<char>, i: usize, w: &Vec<char>) -> (r: bool)
    requires
        i + w@.len() <= v@.len(),
    ensures
        r == contains_seq_at(v@, i as int, w@),
{
    let n = v.len();
    let mut j: usize = 0;
    while j < w.len()
        invariant
            j <= w@.len(),
            n == v@.len(),
            i + w@.len() <= n,
            forall|q: int| 0 <= q < j ==> v@[i + q] == #[trigger] w@[q],
        decreases w@.len() - j,
    {
        if v[i + j] != w[j] {
            return false;
        }
        j += 1;
    }
    true
}

/// Whether `w` occurs in `v` as a contiguous run.
pub fn contains_seq(v: &Vec<char>, w: &Vec<char>) -> (r: bool)
    ensures
        r == spec_contains_seq(v@, w@),
{
    let n = v.len();
    let m = w.len();
    if m > n {
        assert(forall|i: int| !contains_seq_at(v@, i, w@));
        return false;
    }
    let mut i: usize = 0;
    while i <= n - m
        invariant
            m <= n,
            n == v@.len(),
            m == w@.len(),
            i <= n - m + 1,
            forall|q: int| 0 <= q < i ==> !contains_seq_at(v@, q, w@),
        decreases n - i,
    {
        if seq_match_at(v, i, w) {
            return true;
        }
        i += 1;
    }
    assert(forall|q: int| !contains_seq_at(v@, q, w@)) by {
        assert(forall|q: int| q > n - m ==> !contains_seq_at(v@, q, w@));
    }
    false
}

pub open spec fn fold_contains_at(s: Seq<char>, i: int, w: Seq<char>) -> bool {
    0 <= i && i + w.len() <= s.len() && forall|j: int|
        0 <= j < w.len() ==> to_ascii_lower(s[i + j]) == #[trigger] w[j]
}

pub open spec fn spec_contains_fold(s: Seq<char>, w: Seq<char>) -> bool {
    exists|i: int| fold_contains_at(s, i, w)
}

pub fn fold_seq_match_at(v: &Vec<char>, i: usize, w: &Vec<char>) -> (r: bool)
    requires
        i + w@.len() <= v@.len(),
    ensures
        r == fold_contains_at(v@, i as int, w@),
{
    let n = v.len();
    let mut j: usize = 0;
    while j < w.len()
        invariant
            j <= w@.len(),
            n == v@.len(),
            i + w@.len() <= n,
            forall|q: int| 0 <= q < j ==> to_ascii_lower(v@[i + q]) == #[trigger] w@[q],
        decreases w@.len() - j,
    {
        if ascii_lower_of(v[i + j]) != w[j] {
            return false;
        }
        j += 1;
    }
    true
}

/// Whether `w` occurs in `v` up to ASCII case.
pub fn contains_fold(v: &Vec<char>, w: &Vec<char>) -> (r: bool)
    ensures
        r == spec_contains_fold(v@, w@),
{
    let n = v.len();
    let m = w.len();
    if m > n {
        assert(forall|i: int| !fold_contains_at(v@, i, w@));
        return false;
    }
    let mut i: usize = 0;
    while i <= n - m
        invariant
            m <= n,
            n == v@.len(),
            m == w@.len(),
            i <= n - m + 1,
            forall|q: int| 0 <= q < i ==> !fold_contains_at(v@, q, w@),
        decreases n - i,
    {
        if fold_seq_match_at(v, i, w) {
            return true;
        }
        i += 1;
    }
    assert(forall|q: int| !fold_contains_at(v@, q, w@)) by {
        assert(forall|q: int| q > n - m ==> !fold_contains_at(v@, q, w@));
    }
    false
}

pub open spec fn spec_contains_char(s: Seq<char>, c: char) -> bool {
    exists|i: int| 0 <= i < s.len() && s[i] == c
}

pub fn contains_char(v: &Vec<char>, c: char) -> (r: bool)
    ensures
        r == spec_contains_char(v@, c),
{
    let mut i: usize = 0;
    while i < v.len()
        invariant
            i <= v@.len(),
            forall|j: int| 0 <= j < i ==> v@[j] != c,
        decreases v@.len() - i,
    {
        if v[i] == c {
            return true;
        }
        i += 1;
    }
    false
}

/// A bracket-like character that disqualifies a name candidate.
pub open spec fn is_name_bad_char(c: char) -> bool {
    c == '<' || c == '>' || c == '{' || c == '}' || c == '(' || c == ')' || c == '[' || c
        == ']'
}

fn name_bad_char(c: char) -> (r: bool)
    ensures
        r == is_name_bad_char(c),
{
    c == '<' || c == '>' || c == '{' || c == '}' || c == '(' || c == ')' || c == '[' || c
        == ']'
}

pub open spec fn spec_has_bad_char(s: Seq<char>) -> bool {
    exists|i: int| 0 <= i < s.len() && is_name_bad_char(s[i])
}

fn has_bad_char(v: &Vec<char>) -> (r: bool)
    ensures
        r == spec_has_bad_char(v@),
{
    let mut i: usize = 0;
    while i < v.len()
        invariant
            i <= v@.len(),
            forall|j: int| 0 <= j < i ==> !is_name_bad_char(v@[j]),
        decreases v@.len() - i,
    {
        if name_bad_char(v[i]) {
            return true;
        }
        i += 1;
    }
    false
}

/// A name word: its normalized form is nonempty and no stop word, and every
/// hyphen/apostrophe part is purely alphabetic.
pub open spec fn spec_name_word_ok(w: Seq<char>) -> bool {
    &&& spec_norm_token(w).len() > 0
    &&& !spec_stop_token(spec_norm_token(w))
    &&& spec_alpha_word(w)
}

fn name_word_ok(w: &Vec<char>) -> (r: bool)
    ensures
        r == spec_name_word_ok(w@),
{
    let nm = normalize_token(w);
    if nm.len() == 0 {
        return false;
    }
    if stop_token(&nm) {
        return false;
    }
    alpha_word(w)
}

/// The person-name test: two to five purely alphabetic words, none a cohort
/// word, no digits, links, brackets or list separators, at least one
/// all-caps word and one title-case word, and a last word of either shape.
pub open spec fn spec_likely_name(token: Seq<char>) -> bool {
    let cleaned = spec_collapse_ws(spec_trim(token));
    let parts = spec_split_ws(cleaned);
    &&& cleaned.len() > 0
    &&& !contains_digit(cleaned)
    &&& !spec_contains_fold(cleaned, "http://"@)
    &&& !spec_contains_fold(cleaned, "https://"@)
    &&& !spec_contains_char(cleaned, '@')
    &&& !spec_contains_seq(cleaned, " - "@)
    &&& !spec_contains_seq(cleaned, " \u{2013} "@)
    &&& !spec_contains_seq(cleaned, " \u{2014} "@)
    &&& !spec_contains_seq(cleaned, " / "@)
    &&& !spec_has_bad_char(cleaned)
    &&& 2 <= parts.len() <= 5
    &&& (forall|p: int| 0 <= p < parts.len() ==> spec_name_word_ok(#[trigger] parts[p]))
    &&& (exists|p: int| 0 <= p < parts.len() && spec_upper_word(#[trigger] parts[p]))
    &&& (exists|p: int| 0 <= p < parts.len() && spec_title_word(#[trigger] parts[p]))
    &&& (spec_title_word(parts[parts.len() - 1]) || spec_upper_word(parts[parts.len() - 1]))
}

/// Whether a chunk of text reads as a person name.
pub fn likely_name(token: &Vec<char>) -> (r: bool)
    ensures
        r == spec_likely_name(token@),
{
    let t = trim(token);
    let cleaned = collapse_whitespace(&t);
    if cleaned.len() == 0 {
        return false;
    }
    if any_digit(&cleaned) {
        return false;
    }
    let http = crate::text::chars_of("http://");
    let https = crate::text::chars_of("https://");
    if contains_fold(&cleaned, &http) || contains_fold(&cleaned, &https) {
        return false;
    }
    if contains_char(&cleaned, '@') {
        return false;
    }
    let d1 = crate::text::chars_of(" - ");
    let d2 = crate::text::chars_of(" \u{2013} ");
    let d3 = crate::text::chars_of(" \u{2014} ");
    let d4 = crate::text::chars_of(" / ");
    if contains_seq(&cleaned, &d1) || contains_seq(&cleaned, &d2) || contains_seq(
        &cleaned,
        &d3,
    ) || contains_seq(&cleaned, &d4) {
        return false;
    }
    if has_bad_char(&cleaned) {
        return false;
    }
    let parts = split_ws(&cleaned);
    let np = parts.len();
    if np < 2 || np > 5 {
        return false;
    }
    let ghost ps = spec_split_ws(cleaned@);
    let mut found_upper = false;
    let mut found_title = false;
    let mut p: usize = 0;
    while p < np
        invariant
            p <= np,
            np == parts@.len(),
            2 <= np <= 5,
            parts@.map_values(|w: Vec<char>| w@) == ps,
            ps == spec_split_ws(cleaned@),
            cleaned@ == spec_collapse_ws(spec_trim(token@)),
            forall|q: int| 0 <= q < p ==> spec_name_word_ok(#[trigger] ps[q]),
            found_upper == exists|q: int| 0 <= q < p && spec_upper_word(#[trigger] ps[q]),
            found_title == exists|q: int| 0 <= q < p && spec_title_word(#[trigger] ps[q]),
        decreases np - p,
    {
        assert(ps[p as int] == parts@.map_values(|w: Vec<char>| w@)[p as int]);
        if !name_word_ok(&parts[p]) {
            return false;
        }
        if upper_word(&parts[p]) {
            found_upper = true;
        }
        if title_word(&parts[p]) {
            found_title = true;
        }
        p += 1;
    }
    if !found_upper || !found_title {
        return false;
    }
    assert(ps[np - 1] == parts@.map_values(|w: Vec<char>| w@)[np - 1]);
    let last_ok = title_word(&parts[np - 1]) || upper_word(&parts[np - 1]);
    last_ok
}


/// Number of leading non-alphabetic characters.
pub open spec fn leading_nonalpha(s: Seq<char>) -> int
    decreases s.len(),
{
    if s.len() == 0 || is_alpha(s[0]) {
        0
    } else {
        1 + leading_nonalpha(s.subrange(1, s.len() as int))
    }
}

/// Number of trailing non-alphabetic characters.
pub open spec fn trailing_nonalpha(s: Seq<char>) -> int
    decreases s.len(),
{
    if s.len() == 0 || is_alpha(s[s.len() - 1]) {
        0
    } else {
        1 + trailing_nonalpha(s.subrange(0, s.len() - 1))
    }
}

/// The sequence with non-alphabetic characters removed from both ends.
pub open spec fn spec_trim_nonalpha(s: Seq<char>) -> Seq<char> {
    if leading_nonalpha(s) == s.len() {
        Seq::empty()
    } else {
        s.subrange(leading_nonalpha(s), s.len() - trailing_nonalpha(s))
    }
}

proof fn lemma_leading_nonalpha_at(s: Seq<char>, i: int)
    requires
        0 <= i <= s.len(),
        forall|j: int| 0 <= j < i ==> !is_alpha(s[j]),
        i == s.len() || is_alpha(s[i]),
    ensures
        leading_nonalpha(s) == i,
    decreases i,
{
    if i > 0 {
        let t = s.subrange(1, s.len() as int);
        assert(forall|j: int| 0 <= j < i - 1 ==> !is_alpha(#[trigger] t[j]));
        lemma_leading_nonalpha_at(t, i - 1);
    }
}

proof fn lemma_trailing_nonalpha_at(s: Seq<char>, i: int)
    requires
        0 <= i <= s.len(),
        forall|j: int| s.len() - i <= j < s.len() ==> !is_alpha(s[j]),
        i == s.len() || is_alpha(s[s.len() - i - 1]),
    ensures
        trailing_nonalpha(s) == i,
    decreases i,
{
    if i > 0 {
        let t = s.subrange(0, s.len() - 1);
        assert(forall|j: int| t.len() - (i - 1) <= j < t.len() ==> !is_alpha(#[trigger] t[j]));
        lemma_trailing_nonalpha_at(t, i - 1);
    }
}

/// Strips non-alphabetic characters from both ends.
fn trim_nonalpha(v: &Vec<char>) -> (r: Vec<char>)
    ensures
        r@ == spec_trim_nonalpha(v@),
{
    let n = v.len();
    let mut a: usize = 0;
    while a < n && !alpha_char(v[a])
        invariant
            n == v@.len(),
            a <= n,
            forall|j: int| 0 <= j < a ==> !is_alpha(v@[j]),
        decreases n - a,
    {
        a += 1;
    }
    proof {
        lemma_leading_nonalpha_at(v@, a as int);
    }
    if a == n {
        let r: Vec<char> = Vec::new();
        assert(r@ =~= spec_trim_nonalpha(v@));
        return r;
    }
    let mut b: usize = n;
    while b > a && !alpha_char(v[b - 1])
        invariant
            n == v@.len(),
            a <= b <= n,
            a < n,
            is_alpha(v@[a as int]),
            forall|j: int| b <= j < n ==> !is_alpha(v@[j]),
        decreases b,
    {
        b -= 1;
    }
    proof {
        lemma_trailing_nonalpha_at(v@, n - b);
    }
    crate::text::subvec(v, a, b)
}

/// The index of the last uppercase letter, or -1.
pub open spec fn last_upper_idx(s: Seq<char>) -> int
    decreases s.len(),
{
    if s.len() == 0 {
        -1
    } else if is_upper(s[s.len() - 1]) {
        s.len() - 1
    } else {
        last_upper_idx(s.subrange(0, s.len() - 1))
    }
}

proof fn lemma_last_upper_at(s: Seq<char>, i: int)
    requires
        -1 <= i < s.len(),
        forall|j: int| i < j < s.len() ==> !is_upper(s[j]),
        i == -1 || is_upper(s[i]),
    ensures
        last_upper_idx(s) == i,
    decreases s.len(),
{
    if s.len() > 0 {
        if i == s.len() - 1 {
        } else {
            let t = s.subrange(0, s.len() - 1);
            assert(forall|j: int| i < j < t.len() ==> !is_upper(#[trigger] t[j]));
            lemma_last_upper_at(t, i);
        }
    }
}

fn find_last_upper(v: &Vec<char>) -> (r: Option<usize>)
    ensures
        match r {
            Some(i) => i < v@.len() && last_upper_idx(v@) == i as int,
            None => last_upper_idx(v@) == -1,
        },
{
    let n = v.len();
    let mut b: usize = n;
    while b > 0 && !upper_char(v[b - 1])
        invariant
            b <= n,
            n == v@.len(),
            forall|j: int| b <= j < n ==> !is_upper(v@[j]),
        decreases b,
    {
        b -= 1;
    }
    if b == 0 {
        proof {
            lemma_last_upper_at(v@, -1);
        }
        None
    } else {
        proof {
            lemma_last_upper_at(v@, b - 1);
        }
        Some(b - 1)
    }
}

/// A character allowed in the leading glued-family-name run: uppercase
/// letters, apostrophes and hyphens.
pub open spec fn is_upclass(c: char) -> bool {
    is_upper(c) || c == '\'' || c == '\u{2019}' || c == '-'
}

fn upclass_char(c: char) -> (r: bool)
    ensures
        r == is_upclass(c),
{
    upper_char(c) || c == '\'' || c == '\u{2019}' || c == '-'
}

/// A character allowed after the leading capital of a given name: lowercase
/// letters, apostrophes and hyphens.
pub open spec fn is_lowclass(c: char) -> bool {
    is_lower(c) || c == '\'' || c == '\u{2019}' || c == '-'
}

fn lowclass_char(c: char) -> (r: bool)
    ensures
        r == is_lowclass(c),
{
    lower_char(c) || c == '\'' || c == '\u{2019}' || c == '-'
}

/// The repaired form of a glued name: the token split before its last
/// uppercase letter, when everything before is an all-caps run of length at
/// least two and everything from it on is a title-case run.
pub open spec fn spec_stuck_split(s: Seq<char>) -> Option<Seq<char>> {
    let p = last_upper_idx(s);
    if p >= 2 && p + 2 <= s.len() && (forall|j: int| 0 <= j < p ==> is_upclass(
        #[trigger] s[j],
    )) && (forall|j: int| p < j < s.len() ==> is_lowclass(#[trigger] s[j])) {
        Some(s.subrange(0, p).push(' ') + s.subrange(p, s.len() as int))
    } else {
        None
    }
}

/// The glued-name repair applied to a whole chunk: it fires only on a single
/// token, cleaned of surrounding punctuation.
pub open spec fn spec_split_stuck(token: Seq<char>) -> Option<Seq<char>> {
    let trimmed = spec_trim(token);
    if trimmed.len() == 0 || exists|i: int| 0 <= i < trimmed.len() && is_space(trimmed[i]) {
        None
    } else {
        let cleaned = spec_trim_nonalpha(trimmed);
        if cleaned.len() == 0 {
            None
        } else {
            spec_stuck_split(cleaned)
        }
    }
}

/// Splits a glued `FAMILYGiven` token into `FAMILY Given`.
pub fn split_stuck_name(token: &Vec<char>) -> (r: Option<Vec<char>>)
    ensures
        match r {
            Some(out) => spec_split_stuck(token@) == Some(out@),
            None => spec_split_stuck(token@) is None,
        },
{
    let trimmed = trim(token);
    if trimmed.len() == 0 {
        return None;
    }
    let mut i: usize = 0;
    while i < trimmed.len()
        invariant
            i <= trimmed@.len(),
            trimmed@ == spec_trim(token@),
            trimmed@.len() > 0,
            forall|j: int| 0 <= j < i ==> !is_space(trimmed@[j]),
        decreases trimmed@.len() - i,
    {
        if space_char(trimmed[i]) {
            return None;
        }
        i += 1;
    }
    let cleaned = trim_nonalpha(&trimmed);
    if cleaned.len() == 0 {
        return None;
    }
    let p = match find_last_upper(&cleaned) {
        None => {
            return None;
        },
        Some(p) => p,
    };
    if !(p >= 2 && cleaned.len() - p >= 2) {
        return None;
    }
    let ghost ctx = spec_split_stuck(token@);
    proof {
        assert(ctx == spec_stuck_split(cleaned@));
    }
    let mut j: usize = 0;
    while j < p
        invariant
            j <= p,
            p + 2 <= cleaned@.len(),
            p >= 2,
            p == last_upper_idx(cleaned@),
            ctx == spec_stuck_split(cleaned@),
            ctx == spec_split_stuck(token@),
            forall|q: int| 0 <= q < j ==> is_upclass(#[trigger] cleaned@[q]),
        decreases p - j,
    {
        if !upclass_char(cleaned[j]) {
            return None;
        }
        j += 1;
    }
    let mut j2: usize = p + 1;
    while j2 < cleaned.len()
        invariant
            p < j2 <= cleaned@.len(),
            p + 2 <= cleaned@.len(),
            p >= 2,
            p == last_upper_idx(cleaned@),
            ctx == spec_stuck_split(cleaned@),
            ctx == spec_split_stuck(token@),
            forall|q: int| 0 <= q < p ==> is_upclass(#[trigger] cleaned@[q]),
            forall|q: int| p < q < j2 ==> is_lowclass(#[trigger] cleaned@[q]),
        decreases cleaned@.len() - j2,
    {
        if !lowclass_char(cleaned[j2]) {
            return None;
        }
        j2 += 1;
    }
    let mut out = crate::text::subvec(&cleaned, 0, p);
    out.push(' ');
    let mut k: usize = p;
    while k < cleaned.len()
        invariant
            p <= k <= cleaned@.len(),
            out@ == cleaned@.subrange(0, p as int).push(' ') + cleaned@.subrange(
                p as int,
                k as int,
            ),
        decreases cleaned@.len() - k,
    {
        out.push(cleaned[k]);
        assert(out@ =~= cleaned@.subrange(0, p as int).push(' ') + cleaned@.subrange(
            p as int,
            k + 1 as int,
        ));
        k += 1;
    }
    assert(cleaned@.subrange(p as int, cleaned@.len() as int) == cleaned@.subrange(
        p as int,
        cleaned@.len() as int,
    ));
    Some(out)
}


/// End of the run of upper-class characters from `q`.
pub open spec fn upclass_run_end(s: Seq<char>, q: int) -> int
    decreases s.len() - q when 0 <= q <= s.len()
{
    if q < s.len() && is_upclass(s[q]) {
        upclass_run_end(s, q + 1)
    } else {
        q
    }
}

/// End of the run of lower-class characters from `q`.
pub open spec fn lowclass_run_end(s: Seq<char>, q: int) -> int
    decreases s.len() - q when 0 <= q <= s.len()
{
    if q < s.len() && is_lowclass(s[q]) {
        lowclass_run_end(s, q + 1)
    } else {
        q
    }
}

proof fn lemma_class_run_bounds(s: Seq<char>, q: int)
    requires
        0 <= q <= s.len(),
    ensures
        q <= upclass_run_end(s, q) <= s.len(),
        q <= lowclass_run_end(s, q) <= s.len(),
    decreases s.len() - q,
{
    if q < s.len() {
        lemma_class_run_bounds(s, q + 1);
    }
}

fn upclass_end(v: &Vec<char>, q: usize) -> (r: usize)
    requires
        q <= v@.len(),
    ensures
        r == upclass_run_end(v@, q as int),
        q <= r <= v@.len(),
{
    let n = v.len();
    let mut i: usize = q;
    while i < n && upclass_char(v[i])
        invariant
            q <= i <= n,
            n == v@.len(),
            upclass_run_end(v@, q as int) == upclass_run_end(v@, i as int),
        decreases n - i,
    {
        i += 1;
    }
    i
}

fn lowclass_end(v: &Vec<char>, q: usize) -> (r: usize)
    requires
        q <= v@.len(),
    ensures
        r == lowclass_run_end(v@, q as int),
        q <= r <= v@.len(),
{
    let n = v.len();
    let mut i: usize = q;
    while i < n && lowclass_char(v[i])
        invariant
            q <= i <= n,
            n == v@.len(),
            lowclass_run_end(v@, q as int) == lowclass_run_end(v@, i as int),
        decreases n - i,
    {
        i += 1;
    }
    i
}

/// One leading word of an inline capitalized run: an uppercase letter, a run
/// of upper-class characters, and at least one whitespace character; yields
/// the position after the whitespace.
pub open spec fn rep_end(s: Seq<char>, i: int) -> Option<int> {
    if 0 <= i < s.len() && is_upper(s[i]) {
        let a = upclass_run_end(s, i + 1);
        let b = crate::summary::ws_run_end(s, a);
        if b > a {
            Some(b)
        } else {
            None
        }
    } else {
        None
    }
}

/// The closing word of an inline capitalized run: an uppercase letter
/// followed by at least one lower-class character.
pub open spec fn final_end(s: Seq<char>, i: int) -> Option<int> {
    if 0 <= i < s.len() && is_upper(s[i]) {
        let e = lowclass_run_end(s, i + 1);
        if e > i + 1 {
            Some(e)
        } else {
            None
        }
    } else {
        None
    }
}

/// An inline capitalized-run match at `i`: one to three all-caps words, as
/// many as possible, then a title-case word; yields the end of the match.
pub open spec fn inline_match_at(s: Seq<char>, i: int) -> Option<int> {
    match rep_end(s, i) {
        None => None,
        Some(r1) => {
            let two = match rep_end(s, r1) {
                None => None,
                Some(r2) => {
                    let three = match rep_end(s, r2) {
                        None => None,
                        Some(r3) => final_end(s, r3),
                    };
                    if three is Some {
                        three
                    } else {
                        final_end(s, r2)
                    }
                },
            };
            if two is Some {
                two
            } else {
                final_end(s, r1)
            }
        },
    }
}

fn rep_end_exec(v: &Vec<char>, i: usize) -> (r: Option<usize>)
    requires
        i <= v@.len(),
    ensures
        match r {
            Some(b) => rep_end(v@, i as int) == Some(b as int) && i < b <= v@.len(),
            None => rep_end(v@, i as int) is None,
        },
{
    let n = v.len();
    if i < n && upper_char(v[i]) {
        let a = upclass_end(v, i + 1);
        let b = crate::summary::ws_end(v, a);
        if b > a {
            Some(b)
        } else {
            None
        }
    } else {
        None
    }
}

fn final_end_exec(v: &Vec<char>, i: usize) -> (r: Option<usize>)
    requires
        i <= v@.len(),
    ensures
        match r {
            Some(b) => final_end(v@, i as int) == Some(b as int) && i < b <= v@.len(),
            None => final_end(v@, i as int) is None,
        },
{
    let n = v.len();
    if i < n && upper_char(v[i]) {
        let e = lowclass_end(v, i + 1);
        if e > i + 1 {
            Some(e)
        } else {
            None
        }
    } else {
        None
    }
}

fn inline_match_exec(v: &Vec<char>, i: usize) -> (r: Option<usize>)
    requires
        i <= v@.len(),
    ensures
        match r {
            Some(e) => inline_match_at(v@, i as int) == Some(e as int) && i < e <= v@.len(),
            None => inline_match_at(v@, i as int) is None,
        },
{
    let r1 = match rep_end_exec(v, i) {
        None => {
            return None;
        },
        Some(r1) => r1,
    };
    let two: Option<usize> = match rep_end_exec(v, r1) {
        None => None,
        Some(r2) => {
            let three: Option<usize> = match rep_end_exec(v, r2) {
                None => None,
                Some(r3) => final_end_exec(v, r3),
            };
            if three.is_some() {
                three
            } else {
                final_end_exec(v, r2)
            }
        },
    };
    if let Some(e) = two {
        return Some(e);
    }
    final_end_exec(v, r1)
}

/// All inline capitalized-run matches from `i` on, leftmost first, each
/// scan resuming where the previous match ended.
pub open spec fn inline_matches_from(s: Seq<char>, i: int) -> Seq<(int, int)>
    decreases s.len() - i when 0 <= i
{
    if i >= s.len() {
        Seq::empty()
    } else {
        match inline_match_at(s, i) {
            Some(e) => {
                let next = if i < e <= s.len() {
                    e
                } else {
                    i + 1
                };
                seq![(i, e)] + inline_matches_from(s, next)
            },
            None => inline_matches_from(s, i + 1),
        }
    }
}

fn inline_matches(v: &Vec<char>) -> (r: Vec<(usize, usize)>)
    ensures
        r@.map_values(|m: (usize, usize)| (m.0 as int, m.1 as int)) == inline_matches_from(
            v@,
            0,
        ),
        forall|j: int| 0 <= j < r@.len() ==> #[trigger] r@[j].0 <= r@[j].1 <= v@.len(),
{
    let n = v.len();
    let mut out: Vec<(usize, usize)> = Vec::new();
    let mut i: usize = 0;
    while i < n
        invariant
            i <= n,
            n == v@.len(),
            inline_matches_from(v@, 0) == out@.map_values(
                |m: (usize, usize)| (m.0 as int, m.1 as int),
            ) + inline_matches_from(v@, i as int),
            forall|j: int| 0 <= j < out@.len() ==> #[trigger] out@[j].0 <= out@[j].1
                <= v@.len(),
        decreases n - i,
    {
        match inline_match_exec(v, i) {
            Some(e) => {
                out.push((i, e));
                assert(out@.map_values(|m: (usize, usize)| (m.0 as int, m.1 as int)) =~= out@
                    .map_values(|m: (usize, usize)| (m.0 as int, m.1 as int)).subrange(
                    0,
                    out@.len() - 1,
                ).push((i as int, e as int)));
                i = e;
            },
            None => {
                i += 1;
            },
        }
    }
    assert(inline_matches_from(v@, n as int) =~= Seq::<(int, int)>::empty());
    assert(out@.map_values(|m: (usize, usize)| (m.0 as int, m.1 as int)) =~=
        inline_matches_from(v@, 0));
    out
}

/// The names found in the matched spans, folded into a sorted set from `j`
/// on.
pub open spec fn names_from_matches(
    s: Seq<char>,
    ms: Seq<(int, int)>,
    j: int,
    acc: Seq<Seq<char>>,
) -> Seq<Seq<char>>
    decreases ms.len() - j when 0 <= j
{
    if j >= ms.len() {
        acc
    } else {
        let cand = spec_collapse_ws(spec_trim(s.subrange(ms[j].0, ms[j].1)));
        let acc2 = if spec_likely_name(cand) {
            crate::text::insert_lex(acc, cand)
        } else {
            acc
        };
        names_from_matches(s, ms, j + 1, acc2)
    }
}

/// The sorted set of person names read from one chunk of text: the chunk
/// itself when it passes the name test, its glued-name repair, and every
/// inline capitalized run that passes the test.
pub open spec fn spec_names_from_text(text: Seq<char>) -> Seq<Seq<char>> {
    let cleaned = spec_collapse_ws(spec_trim(text));
    if cleaned.len() == 0 {
        Seq::empty()
    } else {
        let acc0: Seq<Seq<char>> = Seq::empty();
        let acc1 = if spec_likely_name(cleaned) {
            crate::text::insert_lex(acc0, cleaned)
        } else {
            acc0
        };
        let acc2 = match spec_split_stuck(cleaned) {
            Some(rep) => if spec_likely_name(rep) {
                crate::text::insert_lex(acc1, rep)
            } else {
                acc1
            },
            None => acc1,
        };
        names_from_matches(cleaned, inline_matches_from(cleaned, 0), 0, acc2)
    }
}

/// Extracts the sorted set of person names from a chunk of text.
pub fn extract_names_from_text(text: &Vec<char>) -> (r: Vec<Vec<char>>)
    ensures
        r@.map_values(|e: Vec<char>| e@) == spec_names_from_text(text@),
{
    let t = trim(text);
    let cleaned = collapse_whitespace(&t);
    if cleaned.len() == 0 {
        let r: Vec<Vec<char>> = Vec::new();
        assert(r@.map_values(|e: Vec<char>| e@) =~= spec_names_from_text(text@));
        return r;
    }
    let mut acc: Vec<Vec<char>> = Vec::new();
    assert(acc@.map_values(|e: Vec<char>| e@) =~= Seq::<Seq<char>>::empty());
    if likely_name(&cleaned) {
        let copy = crate::text::subvec(&cleaned, 0, cleaned.len());
        assert(copy@ =~= cleaned@);
        crate::text::insert_sorted(&mut acc, copy);
    }
    match split_stuck_name(&cleaned) {
        Some(rep) => {
            if likely_name(&rep) {
                crate::text::insert_sorted(&mut acc, rep);
            }
        },
        None => {},
    }
    assert(acc@.map_values(|e: Vec<char>| e@) == old_acc_spec(cleaned@, text@));
    let ms = inline_matches(&cleaned);
    let ghost mspec = inline_matches_from(cleaned@, 0);
    let mut j: usize = 0;
    while j < ms.len()
        invariant
            j <= ms@.len(),
            ms@.map_values(|m: (usize, usize)| (m.0 as int, m.1 as int)) == mspec,
            forall|q: int| 0 <= q < ms@.len() ==> #[trigger] ms@[q].0 <= ms@[q].1
                <= cleaned@.len(),
            names_from_matches(cleaned@, mspec, j as int, acc@.map_values(|e: Vec<char>| e@))
                == names_from_matches(cleaned@, mspec, 0, old_acc_spec(cleaned@, text@)),
            spec_names_from_text(text@) == names_from_matches(
                cleaned@,
                mspec,
                0,
                old_acc_spec(cleaned@, text@),
            ),
        decreases ms@.len() - j,
    {
        assert(mspec[j as int] == ms@.map_values(
            |m: (usize, usize)| (m.0 as int, m.1 as int),
        )[j as int]);
        let sub = crate::text::subvec(&cleaned, ms[j].0, ms[j].1);
        let st = trim(&sub);
        let cand = collapse_whitespace(&st);
        if likely_name(&cand) {
            crate::text::insert_sorted(&mut acc, cand);
        }
        j += 1;
    }
    acc
}

/// The seed set of the per-chunk name scan: the whole cleaned chunk and its
/// glued-name repair, each when it passes the name test.
pub open spec fn old_acc_spec(cleaned: Seq<char>, text: Seq<char>) -> Seq<Seq<char>> {
    let acc0: Seq<Seq<char>> = Seq::empty();
    let acc1 = if spec_likely_name(cleaned) {
        crate::text::insert_lex(acc0, cleaned)
    } else {
        acc0
    };
    match spec_split_stuck(cleaned) {
        Some(rep) => if spec_likely_name(rep) {
            crate::text::insert_lex(acc1, rep)
        } else {
            acc1
        },
        None => acc1,
    }
}

} // verus!
