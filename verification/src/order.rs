use vstd::prelude::*;

verus! {

use vstd::multiset::Multiset;

/// Lexicographic order on character sequences, by code point, as Rust
/// orders `str` values.
pub open spec fn lex_le(a: Seq<char>, b: Seq<char>) -> bool
    decreases a.len(),
{
    if a.len() == 0 {
        true
    } else if b.len() == 0 {
        false
    } else if a[0] == b[0] {
        lex_le(a.drop_first(), b.drop_first())
    } else {
        (a[0] as u32) < (b[0] as u32)
    }
}

pub proof fn lemma_lex_le_total(a: Seq<char>, b: Seq<char>)
    ensures
        lex_le(a, b) || lex_le(b, a),
    decreases a.len(),
{
    if a.len() == 0 || b.len() == 0 {
    } else if a[0] == b[0] {
        lemma_lex_le_total(a.drop_first(), b.drop_first());
    } else {
        vstd::utf8::char_u32_cast(a[0], a[0] as u32);
        vstd::utf8::char_u32_cast(b[0], b[0] as u32);
        assert((a[0] as u32) < (b[0] as u32) || (b[0] as u32) < (a[0] as u32));
    }
}

pub proof fn lemma_lex_le_trans(a: Seq<char>, b: Seq<char>, c: Seq<char>)
    requires
        lex_le(a, b),
        lex_le(b, c),
    ensures
        lex_le(a, c),
    decreases a.len(),
{
    if a.len() > 0 && b.len() > 0 && c.len() > 0 && a[0] == b[0] && b[0] == c[0] {
        lemma_lex_le_trans(a.drop_first(), b.drop_first(), c.drop_first());
    }
}

/// Lexicographic comparison of two string slices, by character.
pub fn str_lex_le(a: &str, b: &str) -> (r: bool)
    ensures
        r == lex_le(a@, b@),
{
    let a_len = a.unicode_len();
    let b_len = b.unicode_len();
    proof {
        assert(a@.skip(0) =~= a@);
        assert(b@.skip(0) =~= b@);
    }
    let mut i: usize = 0;
    loop
        invariant
            i <= a_len,
            i <= b_len,
            a_len == a@.len(),
            b_len == b@.len(),
            lex_le(a@, b@) == lex_le(a@.skip(i as int), b@.skip(i as int)),
        decreases a_len - i,
    {
        if i == a_len {
            proof {
                assert(a@.skip(i as int).len() == 0);
            }
            return true;
        }
        if i == b_len {
            proof {
                assert(b@.skip(i as int).len() == 0);
                assert(a@.skip(i as int).len() > 0);
            }
            return false;
        }
        let ca = a.get_char(i);
        let cb = b.get_char(i);
        proof {
            assert(a@.skip(i as int)[0] == a@[i as int]);
            assert(b@.skip(i as int)[0] == b@[i as int]);
        }
        if ca == cb {
            proof {
                assert(a@.skip(i as int).drop_first() =~= a@.skip(i + 1));
                assert(b@.skip(i as int).drop_first() =~= b@.skip(i + 1));
            }
            i = i + 1;
        } else {
            return (ca as u32) < (cb as u32);
        }
    }
}

/// `s` is sorted when every element is ordered below the ones after it.
pub open spec fn sorted(s: Seq<Seq<char>>) -> bool {
    forall|i: int, j: int| 0 <= i < j < s.len() ==> lex_le(s[i], s[j])
}

/// `x` placed into `s` just before the first element it is strictly
/// below.
pub open spec fn insert_sorted(s: Seq<Seq<char>>, x: Seq<char>) -> Seq<Seq<char>>
    decreases s.len(),
{
    if s.len() == 0 {
        seq![x]
    } else if lex_le(s[0], x) {
        seq![s[0]] + insert_sorted(s.drop_first(), x)
    } else {
        seq![x] + s
    }
}

/// The keys of `s` sorted by repeated insertion, taking the first `n`.
pub open spec fn sort_upto(s: Seq<Seq<char>>, n: int) -> Seq<Seq<char>>
    decreases n,
{
    if n <= 0 {
        Seq::empty()
    } else {
        insert_sorted(sort_upto(s, n - 1), s[n - 1])
    }
}

pub open spec fn sort_keys(s: Seq<Seq<char>>) -> Seq<Seq<char>> {
    sort_upto(s, s.len() as int)
}

pub proof fn lemma_insert_sorted_len(s: Seq<Seq<char>>, x: Seq<char>)
    ensures
        insert_sorted(s, x).len() == s.len() + 1,
    decreases s.len(),
{
    if s.len() > 0 && lex_le(s[0], x) {
        lemma_insert_sorted_len(s.drop_first(), x);
    }
}

pub proof fn lemma_insert_sorted_multiset(s: Seq<Seq<char>>, x: Seq<char>)
    ensures
        insert_sorted(s, x).to_multiset() =~= s.to_multiset().insert(x),
    decreases s.len(),
{
    broadcast use vstd::seq_lib::group_to_multiset_ensures;

    if s.len() == 0 {
        assert(insert_sorted(s, x) =~= Seq::empty().push(x));
        assert(s.to_multiset() =~= Multiset::empty());
    } else if lex_le(s[0], x) {
        lemma_insert_sorted_multiset(s.drop_first(), x);
        assert(insert_sorted(s, x) =~= insert_sorted(s.drop_first(), x).insert(
            0,
            s[0],
        ));
        assert(s =~= s.drop_first().insert(0, s[0]));
    } else {
        assert(insert_sorted(s, x) =~= s.insert(0, x));
    }
}

pub proof fn lemma_insert_sorted_sorted(s: Seq<Seq<char>>, x: Seq<char>)
    requires
        sorted(s),
    ensures
        sorted(insert_sorted(s, x)),
    decreases s.len(),
{
    lemma_insert_sorted_len(s, x);
    if s.len() == 0 {
    } else if lex_le(s[0], x) {
        let t = s.drop_first();
        assert forall|i: int, j: int| 0 <= i < j < t.len() implies lex_le(t[i], t[j]) by {
            assert(t[i] == s[i + 1]);
            assert(t[j] == s[j + 1]);
        }
        lemma_insert_sorted_sorted(t, x);
        lemma_insert_sorted_len(t, x);
        let r = insert_sorted(s, x);
        let rt = insert_sorted(t, x);
        assert(r =~= seq![s[0]] + rt);
        // the head is below everything that follows it
        assert forall|j: int| 1 <= j < r.len() implies lex_le(r[0], r[j]) by {
            assert(r[j] == rt[j - 1]);
            lemma_insert_sorted_head(t, x, j - 1);
            if rt[j - 1] == x {
            } else {
                let k = choose|k: int| 0 <= k < t.len() && rt[j - 1] == t[k];
                assert(t[k] == s[k + 1]);
            }
        }
        assert forall|i: int, j: int| 0 <= i < j < r.len() implies lex_le(r[i], r[j]) by {
            if i == 0 {
            } else {
                assert(r[i] == rt[i - 1]);
                assert(r[j] == rt[j - 1]);
            }
        }
    } else {
        lemma_lex_le_total(s[0], x);
        let r = insert_sorted(s, x);
        assert(r =~= seq![x] + s);
        assert forall|i: int, j: int| 0 <= i < j < r.len() implies lex_le(r[i], r[j]) by {
            if i == 0 {
                assert(r[j] == s[j - 1]);
                if j - 1 == 0 {
                } else {
                    lemma_lex_le_trans(x, s[0], s[j - 1]);
                }
            } else {
                assert(r[i] == s[i - 1]);
                assert(r[j] == s[j - 1]);
            }
        }
    }
}

/// Every element of the insertion result is either `x` itself or one of
/// the original elements ordered below `x`, position by position; used to
/// carry the head's bound through the recursion.
proof fn lemma_insert_sorted_head(s: Seq<Seq<char>>, x: Seq<char>, j: int)
    requires
        0 <= j < insert_sorted(s, x).len(),
    ensures
        insert_sorted(s, x)[j] == x || exists|k: int|
            0 <= k < s.len() && insert_sorted(s, x)[j] == s[k],
    decreases s.len(),
{
    lemma_insert_sorted_len(s, x);
    if s.len() == 0 {
    } else if lex_le(s[0], x) {
        if j == 0 {
            assert(insert_sorted(s, x)[0] == s[0]);
        } else {
            lemma_insert_sorted_len(s.drop_first(), x);
            lemma_insert_sorted_head(s.drop_first(), x, j - 1);
            let t = s.drop_first();
            if insert_sorted(t, x)[j - 1] == x {
            } else {
                let k = choose|k: int| 0 <= k < t.len() && insert_sorted(t, x)[j - 1] == t[k];
                assert(t[k] == s[k + 1]);
            }
        }
    } else {
        if j == 0 {
        } else {
            assert(insert_sorted(s, x)[j] == s[j - 1]);
        }
    }
}

pub proof fn lemma_sort_upto(s: Seq<Seq<char>>, n: int)
    requires
        0 <= n <= s.len(),
    ensures
        sort_upto(s, n).len() == n,
        sorted(sort_upto(s, n)),
        sort_upto(s, n).to_multiset() =~= s.take(n).to_multiset(),
    decreases n,
{
    broadcast use vstd::seq_lib::group_to_multiset_ensures;

    if n <= 0 {
        assert(s.take(0).to_multiset() =~= Multiset::empty());
    } else {
        lemma_sort_upto(s, n - 1);
        lemma_insert_sorted_len(sort_upto(s, n - 1), s[n - 1]);
        lemma_insert_sorted_sorted(sort_upto(s, n - 1), s[n - 1]);
        lemma_insert_sorted_multiset(sort_upto(s, n - 1), s[n - 1]);
        assert(s.take(n) =~= s.take(n - 1).push(s[n - 1]));
        assert(s.take(n).to_multiset() =~= s.take(n - 1).to_multiset().insert(s[n - 1]));
    }
}

/// The character sequences of a sequence of strings.
pub open spec fn str_views(s: Seq<String>) -> Seq<Seq<char>> {
    s.map_values(|x: String| x@)
}

/// Insert a string into a vector kept sorted.
pub fn vec_insert_sorted(v: &mut Vec<String>, x: String)
    ensures
        str_views(final(v)@) =~= insert_sorted(str_views(old(v)@), x@),
{
    let ghost s0 = str_views(old(v)@);
    proof {
        assert(forall|k: int| 0 <= k < s0.len() ==> s0[k] == #[trigger] old(v)@[k]@);
    }
    let mut i: usize = 0;
    while i < v.len()
        invariant
            i <= v.len(),
            v@ == old(v)@,
            s0 == str_views(v@),
            s0.len() == v@.len(),
            forall|k: int| 0 <= k < s0.len() ==> s0[k] == #[trigger] v@[k]@,
            forall|k: int| 0 <= k < i ==> lex_le(s0[k], x@),
        ensures
            i <= v.len(),
            v@ == old(v)@,
            forall|k: int| 0 <= k < i ==> lex_le(s0[k], x@),
            i < v.len() ==> !lex_le(s0[i as int], x@),
        decreases v.len() - i,
    {
        if !str_lex_le(v[i].as_str(), x.as_str()) {
            break ;
        }
        i = i + 1;
    }
    proof {
        lemma_insert_split(s0, x@, i as int);
    }
    v.insert(i, x);
    proof {
        assert(str_views(v@) =~= s0.take(i as int) + seq![x@] + s0.skip(i as int));
    }
}

/// When the first `i` elements are at or below `x` and the element at `i`
/// (if any) is not, the insertion lands exactly at position `i`.
proof fn lemma_insert_split(s: Seq<Seq<char>>, x: Seq<char>, i: int)
    requires
        0 <= i <= s.len(),
        forall|k: int| 0 <= k < i ==> lex_le(s[k], x),
        i < s.len() ==> !lex_le(s[i], x),
    ensures
        insert_sorted(s, x) =~= s.take(i) + seq![x] + s.skip(i),
    decreases s.len(),
{
    if s.len() == 0 {
    } else if i == 0 {
        assert(insert_sorted(s, x) =~= seq![x] + s);
        assert(s.take(0) + seq![x] + s.skip(0) =~= seq![x] + s);
    } else {
        let t = s.drop_first();
        assert(lex_le(s[0], x));
        assert forall|k: int| 0 <= k < i - 1 implies lex_le(t[k], x) by {
            assert(t[k] == s[k + 1]);
        }
        assert(i - 1 < t.len() ==> !lex_le(t[i - 1], x));
        lemma_insert_split(t, x, i - 1);
        assert(insert_sorted(s, x) =~= seq![s[0]] + insert_sorted(t, x));
        assert(t.take(i - 1) =~= s.take(i).drop_first());
        assert(t.skip(i - 1) =~= s.skip(i));
        assert(seq![s[0]] + (t.take(i - 1) + seq![x] + t.skip(i - 1)) =~= s.take(i) + seq![x]
            + s.skip(i));
    }
}

} // verus!
