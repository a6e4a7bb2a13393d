//! Text utilities over character sequences: conversions between `String` and
//! `Vec<char>`, trimming, whitespace collapsing, lexicographic order and
//! order-preserving set insertion.

use vstd::prelude::*;
use crate::chars::{is_space, space_char};
use vstd::string::StrSliceExecFns;
use vstd::string::StringExecFns;

verus! {

/// The characters of a string, in order.
pub fn chars_of(s: &str) -> (r: Vec<char>)
    ensures
        r@ == s@,
{
    let n = s.unicode_len();
    let mut r: Vec<char> = Vec::new();
    let mut i: usize = 0;
    while i < n
        invariant
            n == s@.len(),
            i <= n,
            r@ == s@.subrange(0, i as int),
        decreases n - i,
    {
        r.push(s.get_char(i));
        assert(r@ =~= s@.subrange(0, i + 1 as int));
        i += 1;
    }
    assert(r@ =~= s@);
    r
}

/// Relies on String::push: appends one character at the end.
#[verifier::external_body]
fn push_char(s: &mut String, c: char)
    ensures
        final(s)@ == old(s)@.push(c),
{
    s.push(c)
}

/// The string holding exactly the given characters.
pub fn string_of(v: &Vec<char>) -> (r: String)
    ensures
        r@ == v@,
{
    let mut r = String::new();
    let mut i: usize = 0;
    while i < v.len()
        invariant
            i <= v@.len(),
            r@ == v@.subrange(0, i as int),
        decreases v@.len() - i,
    {
        push_char(&mut r, v[i]);
        assert(r@ =~= v@.subrange(0, i + 1 as int));
        i += 1;
    }
    assert(r@ =~= v@);
    r
}

/// Number of leading whitespace characters.
pub open spec fn leading_spaces(s: Seq<char>) -> int
    decreases s.len(),
{
    if s.len() == 0 || !is_space(s[0]) {
        0
    } else {
        1 + leading_spaces(s.subrange(1, s.len() as int))
    }
}

/// Number of trailing whitespace characters.
pub open spec fn trailing_spaces(s: Seq<char>) -> int
    decreases s.len(),
{
    if s.len() == 0 || !is_space(s[s.len() - 1]) {
        0
    } else {
        1 + trailing_spaces(s.subrange(0, s.len() - 1))
    }
}

/// The sequence with leading and trailing whitespace removed.
pub open spec fn spec_trim(s: Seq<char>) -> Seq<char> {
    if leading_spaces(s) == s.len() {
        Seq::empty()
    } else {
        s.subrange(leading_spaces(s), s.len() - trailing_spaces(s))
    }
}

pub proof fn lemma_leading_spaces_at(s: Seq<char>, i: int)
    requires
        0 <= i <= s.len(),
        forall|j: int| 0 <= j < i ==> is_space(s[j]),
        i == s.len() || !is_space(s[i]),
    ensures
        leading_spaces(s) == i,
    decreases i,
{
    if i == 0 {
    } else {
        let t = s.subrange(1, s.len() as int);
        assert(forall|j: int| 0 <= j < i - 1 ==> is_space(#[trigger] t[j]) == is_space(
            s[j + 1],
        ));
        lemma_leading_spaces_at(t, i - 1);
    }
}

pub proof fn lemma_trailing_spaces_at(s: Seq<char>, i: int)
    requires
        0 <= i <= s.len(),
        forall|j: int| s.len() - i <= j < s.len() ==> is_space(s[j]),
        i == s.len() || !is_space(s[s.len() - i - 1]),
    ensures
        trailing_spaces(s) == i,
    decreases i,
{
    if i == 0 {
    } else {
        let t = s.subrange(0, s.len() - 1);
        assert(forall|j: int| t.len() - (i - 1) <= j < t.len() ==> is_space(#[trigger] t[j]));
        lemma_trailing_spaces_at(t, i - 1);
    }
}

/// Removes leading and trailing whitespace.
pub fn trim(v: &Vec<char>) -> (r: Vec<char>)
    ensures
        r@ == spec_trim(v@),
{
    let n = v.len();
    let mut a: usize = 0;
    while a < n && space_char(v[a])
        invariant
            n == v@.len(),
            a <= n,
            forall|j: int| 0 <= j < a ==> is_space(v@[j]),
        decreases n - a,
    {
        a += 1;
    }
    proof {
        lemma_leading_spaces_at(v@, a as int);
    }
    if a == n {
        let r: Vec<char> = Vec::new();
        assert(r@ =~= spec_trim(v@));
        return r;
    }
    let mut b: usize = n;
    while b > a && space_char(v[b - 1])
        invariant
            n == v@.len(),
            a <= b <= n,
            a < n,
            !is_space(v@[a as int]),
            forall|j: int| b <= j < n ==> is_space(v@[j]),
        decreases b,
    {
        b -= 1;
    }
    proof {
        lemma_trailing_spaces_at(v@, n - b);
    }
    let mut r: Vec<char> = Vec::new();
    let mut i: usize = a;
    while i < b
        invariant
            a <= i <= b <= n,
            n == v@.len(),
            r@ == v@.subrange(a as int, i as int),
        decreases b - i,
    {
        r.push(v[i]);
        assert(r@ =~= v@.subrange(a as int, i + 1 as int));
        i += 1;
    }
    r
}

/// State of the whitespace-collapsing scan over a prefix of length `i`:
/// the output so far, and whether a separating space is owed before the next
/// word character.
pub open spec fn collapse_state(s: Seq<char>, i: int) -> (Seq<char>, bool)
    decreases i,
{
    if i <= 0 {
        (Seq::empty(), false)
    } else {
        let prev = collapse_state(s, i - 1);
        let c = s[i - 1];
        if is_space(c) {
            (prev.0, true)
        } else if prev.1 && prev.0.len() > 0 {
            (prev.0.push(' ').push(c), false)
        } else {
            (prev.0.push(c), false)
        }
    }
}

/// Whitespace runs collapsed to single spaces, leading and trailing
/// whitespace dropped.
pub open spec fn spec_collapse_ws(s: Seq<char>) -> Seq<char> {
    collapse_state(s, s.len() as int).0
}

/// Joins the whitespace-separated words of the input with single spaces.
pub fn collapse_whitespace(v: &Vec<char>) -> (r: Vec<char>)
    ensures
        r@ == spec_collapse_ws(v@),
{
    let mut r: Vec<char> = Vec::new();
    let mut pending = false;
    let mut i: usize = 0;
    while i < v.len()
        invariant
            i <= v@.len(),
            (r@, pending) == collapse_state(v@, i as int),
        decreases v@.len() - i,
    {
        let c = v[i];
        if space_char(c) {
            pending = true;
        } else {
            if pending && r.len() > 0 {
                r.push(' ');
            }
            r.push(c);
            pending = false;
        }
        i += 1;
    }
    r
}

/// Strict lexicographic order on character sequences by code point, the order
/// in which `String` values compare.
pub open spec fn lex_lt(a: Seq<char>, b: Seq<char>) -> bool
    decreases a.len(),
{
    if b.len() == 0 {
        false
    } else if a.len() == 0 {
        true
    } else if (a[0] as u32) < (b[0] as u32) {
        true
    } else if (a[0] as u32) > (b[0] as u32) {
        false
    } else {
        lex_lt(a.subrange(1, a.len() as int), b.subrange(1, b.len() as int))
    }
}

pub proof fn lemma_char_eq_by_u32(c1: char, c2: char)
    requires
        (c1 as u32) == (c2 as u32),
    ensures
        c1 == c2,
{
    vstd::utf8::char_u32_cast(c1, c1 as u32);
    vstd::utf8::char_u32_cast(c2, c2 as u32);
}

pub proof fn lemma_lex_connex(a: Seq<char>, b: Seq<char>)
    ensures
        lex_lt(a, b) || lex_lt(b, a) || a == b,
    decreases a.len(),
{
    if b.len() == 0 || a.len() == 0 {
        if a.len() == b.len() {
            assert(a =~= b);
        }
    } else if (a[0] as u32) == (b[0] as u32) {
        let at = a.subrange(1, a.len() as int);
        let bt = b.subrange(1, b.len() as int);
        lemma_lex_connex(at, bt);
        lemma_char_eq_by_u32(a[0], b[0]);
        if at == bt {
            assert(at.len() == bt.len());
            assert(a.len() == b.len());
            assert forall|i: int| 0 <= i < a.len() implies a[i] == b[i] by {
                if i > 0 {
                    assert(at[i - 1] == a[i]);
                    assert(bt[i - 1] == b[i]);
                }
            }
            assert(a =~= b);
        }
    }
}

pub proof fn lemma_lex_irrefl(a: Seq<char>)
    ensures
        !lex_lt(a, a),
    decreases a.len(),
{
    if a.len() > 0 {
        lemma_lex_irrefl(a.subrange(1, a.len() as int));
    }
}

pub proof fn lemma_lex_trans(a: Seq<char>, b: Seq<char>, c: Seq<char>)
    requires
        lex_lt(a, b),
        lex_lt(b, c),
    ensures
        lex_lt(a, c),
    decreases a.len(),
{
    if a.len() == 0 {
    } else {
        if (a[0] as u32) == (c[0] as u32) {
            assert((a[0] as u32) == (b[0] as u32));
            lemma_lex_trans(
                a.subrange(1, a.len() as int),
                b.subrange(1, b.len() as int),
                c.subrange(1, c.len() as int),
            );
        }
    }
}

/// Compares two character sequences in lexicographic order.
pub fn lex_less(a: &Vec<char>, b: &Vec<char>) -> (r: bool)
    ensures
        r == lex_lt(a@, b@),
    decreases a@.len(),
{
    let mut i: usize = 0;
    proof {
        assert(a@.subrange(0, a@.len() as int) =~= a@);
        assert(b@.subrange(0, b@.len() as int) =~= b@);
    }
    loop
        invariant
            i <= a@.len(),
            i <= b@.len(),
            forall|j: int| 0 <= j < i ==> a@[j] == b@[j],
            lex_lt(a@, b@) == lex_lt(
                a@.subrange(i as int, a@.len() as int),
                b@.subrange(i as int, b@.len() as int),
            ),
        decreases a@.len() - i,
    {
        let ghost asub = a@.subrange(i as int, a@.len() as int);
        let ghost bsub = b@.subrange(i as int, b@.len() as int);
        if i >= b.len() {
            return false;
        }
        if i >= a.len() {
            return true;
        }
        let ca = a[i] as u32;
        let cb = b[i] as u32;
        if ca < cb {
            return true;
        }
        if ca > cb {
            return false;
        }
        proof {
            lemma_char_eq_by_u32(a@[i as int], b@[i as int]);
            assert(asub.subrange(1, asub.len() as int) =~= a@.subrange(
                i + 1 as int,
                a@.len() as int,
            ));
            assert(bsub.subrange(1, bsub.len() as int) =~= b@.subrange(
                i + 1 as int,
                b@.len() as int,
            ));
        }
        i += 1;
    }
}

/// The sequence is strictly ascending in lexicographic order, so it lists a
/// set of strings without repetition.
pub open spec fn strictly_sorted(s: Seq<Seq<char>>) -> bool {
    forall|i: int, j: int| 0 <= i < j < s.len() ==> lex_lt(s[i], s[j])
}

/// Insertion into a strictly sorted sequence, keeping order and uniqueness.
pub open spec fn insert_lex(s: Seq<Seq<char>>, x: Seq<char>) -> Seq<Seq<char>>
    decreases s.len(),
{
    if s.len() == 0 {
        seq![x]
    } else if lex_lt(x, s[0]) {
        seq![x] + s
    } else if x == s[0] {
        s
    } else {
        seq![s[0]] + insert_lex(s.subrange(1, s.len() as int), x)
    }
}

pub proof fn lemma_insert_lex_props(s: Seq<Seq<char>>, x: Seq<char>)
    requires
        strictly_sorted(s),
    ensures
        strictly_sorted(insert_lex(s, x)),
        forall|y: Seq<char>| #[trigger] insert_lex(s, x).contains(y) <==> (s.contains(y) || y
            == x),
        insert_lex(s, x).contains(x),
        insert_lex(s, x).len() >= 1,
        insert_lex(s, x).len() >= s.len(),
    decreases s.len(),
{
    let r = insert_lex(s, x);
    if s.len() == 0 {
        assert(r =~= seq![x]);
        assert(r[0] == x);
        assert forall|y: Seq<char>| #[trigger] r.contains(y) implies (s.contains(y) || y
            == x) by {
            let i = choose|i: int| 0 <= i < r.len() && r[i] == y;
            assert(i == 0);
        }
    } else if lex_lt(x, s[0]) {
        assert(r =~= seq![x] + s);
        assert(r[0] == x);
        assert forall|i: int, j: int| 0 <= i < j < r.len() implies lex_lt(r[i], r[j]) by {
            if i == 0 {
                if j > 1 {
                    lemma_lex_trans(x, s[0], s[j - 1]);
                }
            }
        }
        assert forall|y: Seq<char>| #[trigger] r.contains(y) implies (s.contains(y) || y
            == x) by {
            let i = choose|i: int| 0 <= i < r.len() && r[i] == y;
            if i > 0 {
                assert(s[i - 1] == y);
            }
        }
        assert forall|y: Seq<char>| s.contains(y) implies r.contains(y) by {
            let i = choose|i: int| 0 <= i < s.len() && s[i] == y;
            assert(r[i + 1] == y);
        }
    } else if x == s[0] {
        assert(r.contains(x)) by {
            assert(r[0] == x);
        }
    } else {
        let t = s.subrange(1, s.len() as int);
        assert(strictly_sorted(t)) by {
            assert(forall|i: int, j: int| 0 <= i < j < t.len() ==> lex_lt(
                #[trigger] t[i],
                #[trigger] t[j],
            ));
        }
        lemma_insert_lex_props(t, x);
        let rt = insert_lex(t, x);
        assert(r =~= seq![s[0]] + rt);
        lemma_lex_connex(x, s[0]);
        assert(lex_lt(s[0], x));
        assert forall|i: int, j: int| 0 <= i < j < r.len() implies lex_lt(r[i], r[j]) by {
            if i == 0 {
                assert(rt.contains(r[j])) by {
                    assert(rt[j - 1] == r[j]);
                }
                if r[j] == x {
                } else {
                    assert(t.contains(r[j]));
                    let k = choose|k: int| 0 <= k < t.len() && t[k] == r[j];
                    assert(s[k + 1] == r[j]);
                    assert(lex_lt(s[0], s[k + 1]));
                }
            } else {
                assert(lex_lt(rt[i - 1], rt[j - 1]));
            }
        }
        assert forall|y: Seq<char>| #[trigger] r.contains(y) implies (s.contains(y) || y
            == x) by {
            let i = choose|i: int| 0 <= i < r.len() && r[i] == y;
            if i == 0 {
                assert(s[0] == y);
            } else {
                assert(rt[i - 1] == y);
                assert(rt.contains(y));
                if y != x {
                    assert(t.contains(y));
                    let k = choose|k: int| 0 <= k < t.len() && t[k] == y;
                    assert(s[k + 1] == y);
                }
            }
        }
        assert forall|y: Seq<char>| (s.contains(y) || y == x) implies r.contains(y) by {
            if y == x {
                assert(rt.contains(x));
                let k = choose|k: int| 0 <= k < rt.len() && rt[k] == x;
                assert(r[k + 1] == x);
            } else {
                let i = choose|i: int| 0 <= i < s.len() && s[i] == y;
                if i == 0 {
                    assert(r[0] == y);
                } else {
                    assert(t[i - 1] == y);
                    assert(t.contains(y));
                    assert(rt.contains(y));
                    let k = choose|k: int| 0 <= k < rt.len() && rt[k] == y;
                    assert(r[k + 1] == y);
                }
            }
        }
        assert(r.contains(x)) by {
            let k = choose|k: int| 0 <= k < rt.len() && rt[k] == x;
            assert(r[k + 1] == x);
        }
    }
}

proof fn lemma_insert_lex_skip(s: Seq<Seq<char>>, x: Seq<char>, i: int)
    requires
        0 <= i <= s.len(),
        forall|j: int| 0 <= j < i ==> lex_lt(#[trigger] s[j], x),
    ensures
        insert_lex(s, x) == s.subrange(0, i) + insert_lex(s.subrange(i, s.len() as int), x),
    decreases i,
{
    if i == 0 {
        assert(insert_lex(s, x) =~= s.subrange(0, 0) + insert_lex(
            s.subrange(0, s.len() as int),
            x,
        )) by {
            assert(s.subrange(0, s.len() as int) =~= s);
        }
    } else {
        assert(lex_lt(s[0], x));
        lemma_lex_irrefl(s[0]);
        assert(!(x == s[0]));
        if lex_lt(x, s[0]) {
            lemma_lex_trans(x, s[0], x);
            lemma_lex_irrefl(x);
            assert(false);
        }
        let t = s.subrange(1, s.len() as int);
        assert(forall|j: int| 0 <= j < i - 1 ==> lex_lt(#[trigger] t[j], x)) by {
            assert(forall|j: int| 0 <= j < i - 1 ==> t[j] == s[j + 1]);
        }
        lemma_insert_lex_skip(t, x, i - 1);
        assert(t.subrange(i - 1, t.len() as int) =~= s.subrange(i, s.len() as int));
        assert(seq![s[0]] + (t.subrange(0, i - 1) + insert_lex(
            s.subrange(i, s.len() as int),
            x,
        )) =~= s.subrange(0, i) + insert_lex(s.subrange(i, s.len() as int), x));
    }
}

/// Inserts a string into a sorted duplicate-free list, keeping it so.
pub fn insert_sorted(v: &mut Vec<Vec<char>>, x: Vec<char>)
    ensures
        final(v)@.map_values(|e: Vec<char>| e@) == insert_lex(
            old(v)@.map_values(|e: Vec<char>| e@),
            x@,
        ),
{
    let ghost s = v@.map_values(|e: Vec<char>| e@);
    let mut i: usize = 0;
    while i < v.len() && lex_less(&v[i], &x)
        invariant
            i <= v@.len(),
            s == v@.map_values(|e: Vec<char>| e@),
            forall|j: int| 0 <= j < i ==> lex_lt(#[trigger] s[j], x@),
        decreases v@.len() - i,
    {
        i += 1;
    }
    proof {
        lemma_insert_lex_skip(s, x@, i as int);
    }
    if i < v.len() {
        let same = !lex_less(&x, &v[i]);
        if same {
            proof {
                lemma_lex_connex(x@, s[i as int]);
                assert(x@ == s[i as int]);
                assert(s.subrange(i as int, s.len() as int)[0] == s[i as int]);
                assert(insert_lex(s.subrange(i as int, s.len() as int), x@) == s.subrange(
                    i as int,
                    s.len() as int,
                ));
                assert(s.subrange(0, i as int) + s.subrange(i as int, s.len() as int) =~= s);
            }
            return;
        }
        v.insert(i, x);
        proof {
            let sub = s.subrange(i as int, s.len() as int);
            assert(sub[0] == s[i as int]);
            assert(insert_lex(sub, x@) == seq![x@] + sub);
            assert(final(v)@.map_values(|e: Vec<char>| e@) =~= s.subrange(0, i as int) + (
            seq![x@] + sub));
        }
    } else {
        v.push(x);
        proof {
            assert(s.subrange(i as int, s.len() as int) =~= Seq::<Seq<char>>::empty());
            assert(insert_lex(s.subrange(i as int, s.len() as int), x@) =~= seq![x@]);
            assert(final(v)@.map_values(|e: Vec<char>| e@) =~= s.subrange(0, i as int)
                + seq![x@]);
        }
    }
}


/// Copy of the range `[lo, hi)`.
pub fn subvec(v: &Vec<char>, lo: usize, hi: usize) -> (r: Vec<char>)
    requires
        lo <= hi <= v@.len(),
    ensures
        r@ == v@.subrange(lo as int, hi as int),
{
    let mut r: Vec<char> = Vec::new();
    let mut i: usize = lo;
    while i < hi
        invariant
            lo <= i <= hi <= v@.len(),
            r@ == v@.subrange(lo as int, i as int),
        decreases hi - i,
    {
        r.push(v[i]);
        assert(r@ =~= v@.subrange(lo as int, i + 1 as int));
        i += 1;
    }
    r
}

/// State of the whitespace splitter over a prefix of length `i`: the words
/// already closed, and the word being read.
pub open spec fn split_ws_state(s: Seq<char>, i: int) -> (Seq<Seq<char>>, Seq<char>)
    decreases i,
{
    if i <= 0 {
        (Seq::empty(), Seq::empty())
    } else {
        let prev = split_ws_state(s, i - 1);
        let c = s[i - 1];
        if is_space(c) {
            if prev.1.len() > 0 {
                (prev.0.push(prev.1), Seq::empty())
            } else {
                prev
            }
        } else {
            (prev.0, prev.1.push(c))
        }
    }
}

/// The whitespace-separated words of the input, in order, each nonempty.
pub open spec fn spec_split_ws(s: Seq<char>) -> Seq<Seq<char>> {
    let st = split_ws_state(s, s.len() as int);
    if st.1.len() > 0 {
        st.0.push(st.1)
    } else {
        st.0
    }
}

/// Splits into whitespace-separated words.
pub fn split_ws(v: &Vec<char>) -> (r: Vec<Vec<char>>)
    ensures
        r@.map_values(|w: Vec<char>| w@) == spec_split_ws(v@),
{
    let mut done: Vec<Vec<char>> = Vec::new();
    let mut cur: Vec<char> = Vec::new();
    let mut i: usize = 0;
    while i < v.len()
        invariant
            i <= v@.len(),
            (done@.map_values(|w: Vec<char>| w@), cur@) == split_ws_state(v@, i as int),
        decreases v@.len() - i,
    {
        let c = v[i];
        if space_char(c) {
            if cur.len() > 0 {
                let w = cur;
                done.push(w);
                cur = Vec::new();
                assert(done@.map_values(|w2: Vec<char>| w2@) =~= split_ws_state(
                    v@,
                    i + 1 as int,
                ).0);
            }
        } else {
            cur.push(c);
        }
        i += 1;
    }
    if cur.len() > 0 {
        done.push(cur);
        assert(done@.map_values(|w2: Vec<char>| w2@) =~= spec_split_ws(v@));
    }
    done
}

pub open spec fn contains_digit(s: Seq<char>) -> bool {
    exists|j: int| 0 <= j < s.len() && crate::chars::is_digit(s[j])
}

/// Whether any character is a decimal digit.
pub fn any_digit(v: &Vec<char>) -> (r: bool)
    ensures
        r == contains_digit(v@),
{
    let mut i: usize = 0;
    while i < v.len()
        invariant
            i <= v@.len(),
            forall|j: int| 0 <= j < i ==> !crate::chars::is_digit(v@[j]),
        decreases v@.len() - i,
    {
        if crate::chars::digit_char(v[i]) {
            return true;
        }
        i += 1;
    }
    false
}

/// The sequence with every letter mapped to uppercase.
pub fn to_upper_vec(v: &Vec<char>) -> (r: Vec<char>)
    ensures
        r@ == v@.map_values(|c: char| crate::chars::to_upper(c)),
{
    let mut r: Vec<char> = Vec::new();
    let mut i: usize = 0;
    while i < v.len()
        invariant
            i <= v@.len(),
            r@ == v@.subrange(0, i as int).map_values(|c: char| crate::chars::to_upper(c)),
        decreases v@.len() - i,
    {
        r.push(crate::chars::upper_of(v[i]));
        assert(r@ =~= v@.subrange(0, i + 1 as int).map_values(
            |c: char| crate::chars::to_upper(c),
        ));
        i += 1;
    }
    assert(v@.subrange(0, v@.len() as int) =~= v@);
    r
}

} // verus!
