use vstd::prelude::*;

verus! {

use vstd::relations::sorted_by;
use vstd::string::StrSliceExecFns;
use vstd::string::StringExecFns;

/// Lexicographic (code-point) order on character sequences, compared from
/// position `i` onward: a prefix sorts before every proper extension of it.
pub open spec fn lex_le_from(a: Seq<char>, b: Seq<char>, i: int) -> bool
    decreases a.len() - i,
{
    if i >= a.len() {
        true
    } else if i >= b.len() {
        false
    } else if a[i] != b[i] {
        (a[i] as int) < (b[i] as int)
    } else {
        lex_le_from(a, b, i + 1)
    }
}

/// `a` sorts at or before `b` in code-point order.
pub open spec fn lex_le(a: Seq<char>, b: Seq<char>) -> bool {
    lex_le_from(a, b, 0)
}

/// `a` sorts strictly before `b` in code-point order.
pub open spec fn lex_lt(a: Seq<char>, b: Seq<char>) -> bool {
    lex_le(a, b) && a != b
}

/// The order `lex_le` as a first-class spec function, for use with `sort_by`.
pub open spec fn lex_leq_fn() -> spec_fn(Seq<char>, Seq<char>) -> bool {
    |a: Seq<char>, b: Seq<char>| lex_le(a, b)
}

/// A sequence of strings in strictly ascending code-point order.
pub open spec fn strictly_sorted(s: Seq<Seq<char>>) -> bool {
    forall|i: int, j: int| 0 <= i < j < s.len() ==> lex_lt(#[trigger] s[i], #[trigger] s[j])
}

/// The views of a sequence of strings.
pub open spec fn views_of(s: Seq<String>) -> Seq<Seq<char>> {
    s.map_values(|x: String| x@)
}

pub proof fn lemma_lex_le_refl(a: Seq<char>, i: int)
    ensures
        lex_le_from(a, a, i),
    decreases a.len() - i,
{
    if i < a.len() {
        lemma_lex_le_refl(a, i + 1);
    }
}

pub proof fn lemma_lex_le_total(a: Seq<char>, b: Seq<char>, i: int)
    requires
        0 <= i,
    ensures
        lex_le_from(a, b, i) || lex_le_from(b, a, i),
    decreases a.len() - i,
{
    if i < a.len() && i < b.len() {
        if a[i] == b[i] {
            lemma_lex_le_total(a, b, i + 1);
        } else {
            assert((a[i] as int) != (b[i] as int));
        }
    }
}

proof fn lemma_lex_le_antisym_from(a: Seq<char>, b: Seq<char>, i: int)
    requires
        0 <= i <= a.len(),
        i <= b.len(),
        lex_le_from(a, b, i),
        lex_le_from(b, a, i),
    ensures
        a.len() == b.len(),
        forall|j: int| i <= j < a.len() ==> a[j] == b[j],
    decreases a.len() - i,
{
    if i < a.len() {
        lemma_lex_le_antisym_from(a, b, i + 1);
    }
}

pub proof fn lemma_lex_le_antisym(a: Seq<char>, b: Seq<char>)
    requires
        lex_le(a, b),
        lex_le(b, a),
    ensures
        a == b,
{
    lemma_lex_le_antisym_from(a, b, 0);
    assert(a =~= b);
}

pub proof fn lemma_lex_le_trans_from(a: Seq<char>, b: Seq<char>, c: Seq<char>, i: int)
    requires
        0 <= i,
        lex_le_from(a, b, i),
        lex_le_from(b, c, i),
    ensures
        lex_le_from(a, c, i),
    decreases a.len() - i,
{
    if i < a.len() && i < b.len() && i < c.len() && a[i] == b[i] && b[i] == c[i] {
        lemma_lex_le_trans_from(a, b, c, i + 1);
    }
}

pub proof fn lemma_lex_le_trans(a: Seq<char>, b: Seq<char>, c: Seq<char>)
    requires
        lex_le(a, b),
        lex_le(b, c),
    ensures
        lex_le(a, c),
{
    lemma_lex_le_trans_from(a, b, c, 0);
}

/// `lex_le` is a total ordering in the sense of `vstd::relations`.
pub proof fn lemma_lex_total_ordering()
    ensures
        vstd::relations::total_ordering(lex_leq_fn()),
{
    let leq = lex_leq_fn();
    assert forall|x: Seq<char>| #[trigger] leq(x, x) by {
        lemma_lex_le_refl(x, 0);
    }
    assert forall|x: Seq<char>, y: Seq<char>| #[trigger] leq(x, y) && #[trigger] leq(y, x)
        implies x == y by {
        lemma_lex_le_antisym(x, y);
    }
    assert forall|x: Seq<char>, y: Seq<char>, z: Seq<char>|
        #[trigger] leq(x, y) && #[trigger] leq(y, z) implies leq(x, z) by {
        lemma_lex_le_trans(x, y, z);
    }
    assert forall|x: Seq<char>, y: Seq<char>| #[trigger] leq(x, y) || #[trigger] leq(y, x) by {
        lemma_lex_le_total(x, y, 0);
    }
}

/// Decides `lex_le` on two string slices.
pub fn str_le(a: &str, b: &str) -> (r: bool)
    ensures
        r == lex_le(a@, b@),
{
    let alen = a.unicode_len();
    let blen = b.unicode_len();
    let mut i: usize = 0;
    loop
        invariant
            i <= alen,
            alen == a@.len(),
            blen == b@.len(),
            lex_le(a@, b@) == lex_le_from(a@, b@, i as int),
        decreases alen - i,
    {
        if i >= alen {
            return true;
        }
        if i >= blen {
            return false;
        }
        let ca = a.get_char(i);
        let cb = b.get_char(i);
        if ca != cb {
            return (ca as u32) < (cb as u32);
        }
        i = i + 1;
    }
}

/// Decides equality of two string slices' character sequences.
pub fn str_eq(a: &str, b: &str) -> (r: bool)
    ensures
        r == (a@ == b@),
{
    let le_ab = str_le(a, b);
    let le_ba = str_le(b, a);
    proof {
        if lex_le(a@, b@) && lex_le(b@, a@) {
            lemma_lex_le_antisym(a@, b@);
        }
        if a@ == b@ {
            lemma_lex_le_refl(a@, 0);
        }
    }
    le_ab && le_ba
}

/// Inserts `s` into the sorted vector `out`, keeping it sorted.
fn insert_sorted(out: &mut Vec<String>, s: String)
    requires
        sorted_by(views_of(old(out)@), lex_leq_fn()),
    ensures
        sorted_by(views_of(final(out)@), lex_leq_fn()),
        views_of(final(out)@).to_multiset() == views_of(old(out)@).to_multiset().insert(s@),
{
    broadcast use vstd::seq_lib::group_to_multiset_ensures;

    let mut idx: usize = 0;
    while idx < out.len() && !str_le(s.as_str(), out[idx].as_str())
        invariant
            idx <= out@.len(),
            *out == *old(out),
            forall|j: int| 0 <= j < idx ==> lex_le(#[trigger] out@[j]@, s@),
        decreases out@.len() - idx,
    {
        proof {
            lemma_lex_le_total(s@, out@[idx as int]@, 0);
        }
        idx = idx + 1;
    }
    let ghost pre = views_of(out@);
    proof {
        if idx < out@.len() {
            assert(lex_le(s@, pre[idx as int]));
        }
    }
    out.insert(idx, s);
    proof {
        assert(views_of(out@) =~= pre.insert(idx as int, s@));
        assert forall|i: int, j: int| 0 <= i < j < views_of(out@).len()
            implies lex_leq_fn()(views_of(out@)[i], views_of(out@)[j]) by {
            let v = views_of(out@);
            if j < idx {
                assert(v[i] == pre[i] && v[j] == pre[j]);
            } else if i > idx {
                assert(v[i] == pre[i - 1] && v[j] == pre[j - 1]);
            } else if i < idx && j == idx {
                assert(v[i] == pre[i] && v[j] == s@);
            } else if i < idx && j > idx {
                assert(v[i] == pre[i] && v[j] == pre[j - 1]);
            } else if i == idx && j > idx {
                assert(v[i] == s@ && v[j] == pre[j - 1]);
                if j - 1 > idx {
                    assert(lex_leq_fn()(pre[idx as int], pre[j - 1]));
                    lemma_lex_le_trans(s@, pre[idx as int], pre[j - 1]);
                }
            }
        }
        vstd::seq_lib::to_multiset_insert(pre, idx as int, s@);
    }
}

/// Sorts a vector of strings into ascending code-point order,
/// keeping exactly the same multiset of strings.
pub fn sort_strings(v: Vec<String>) -> (r: Vec<String>)
    ensures
        sorted_by(views_of(r@), lex_leq_fn()),
        views_of(r@).to_multiset() == views_of(v@).to_multiset(),
{
    broadcast use vstd::seq_lib::group_to_multiset_ensures;

    let mut out: Vec<String> = Vec::new();
    let mut k: usize = 0;
    proof {
        assert(views_of(out@) =~= Seq::<Seq<char>>::empty());
        assert(views_of(v@.take(0)) =~= Seq::<Seq<char>>::empty());
    }
    while k < v.len()
        invariant
            k <= v@.len(),
            sorted_by(views_of(out@), lex_leq_fn()),
            views_of(out@).to_multiset() == views_of(v@.take(k as int)).to_multiset(),
        decreases v@.len() - k,
    {
        let s = v[k].clone();
        insert_sorted(&mut out, s);
        proof {
            assert(views_of(v@.take(k + 1)) =~= views_of(v@.take(k as int)).push(v@[k as int]@));
            vstd::seq_lib::to_multiset_build(views_of(v@.take(k as int)), v@[k as int]@);
        }
        k = k + 1;
    }
    proof {
        assert(v@.take(v@.len() as int) =~= v@);
    }
    out
}

/// The decimal digit `d` as a character, for `0 <= d <= 9`.
pub open spec fn digit_char(d: int) -> char {
    if d == 0 {
        '0'
    } else if d == 1 {
        '1'
    } else if d == 2 {
        '2'
    } else if d == 3 {
        '3'
    } else if d == 4 {
        '4'
    } else if d == 5 {
        '5'
    } else if d == 6 {
        '6'
    } else if d == 7 {
        '7'
    } else if d == 8 {
        '8'
    } else {
        '9'
    }
}

/// The decimal rendering of `n`, without sign or zero padding.
pub open spec fn dec_str(n: int) -> Seq<char>
    decreases n,
{
    if n < 10 {
        seq![digit_char(n)]
    } else {
        dec_str(n / 10).push(digit_char(n % 10))
    }
}

fn digit_string(d: u32) -> (r: String)
    requires
        d < 10,
    ensures
        r@ == seq![digit_char(d as int)],
{
    let r = if d == 0 {
        proof { reveal_strlit("0"); }
        String::from_str("0")
    } else if d == 1 {
        proof { reveal_strlit("1"); }
        String::from_str("1")
    } else if d == 2 {
        proof { reveal_strlit("2"); }
        String::from_str("2")
    } else if d == 3 {
        proof { reveal_strlit("3"); }
        String::from_str("3")
    } else if d == 4 {
        proof { reveal_strlit("4"); }
        String::from_str("4")
    } else if d == 5 {
        proof { reveal_strlit("5"); }
        String::from_str("5")
    } else if d == 6 {
        proof { reveal_strlit("6"); }
        String::from_str("6")
    } else if d == 7 {
        proof { reveal_strlit("7"); }
        String::from_str("7")
    } else if d == 8 {
        proof { reveal_strlit("8"); }
        String::from_str("8")
    } else {
        proof { reveal_strlit("9"); }
        String::from_str("9")
    };
    proof {
        assert(r@ =~= seq![digit_char(d as int)]);
    }
    r
}

/// Renders `n` in decimal, matching `dec_str`.
pub fn u32_to_decimal(n: u32) -> (s: String)
    ensures
        s@ == dec_str(n as int),
    decreases n,
{
    if n < 10 {
        digit_string(n)
    } else {
        let mut s = u32_to_decimal(n / 10);
        let d = digit_string(n % 10);
        s.append(d.as_str());
        proof {
            assert(s@ =~= dec_str(n as int));
        }
        s
    }
}

} // verus!
