//! The lexicographic order on strings, character by character, and sorting
//! by it.

use vstd::prelude::*;
use vstd::seq_lib::{
    to_multiset_build, to_multiset_contains, to_multiset_insert, to_multiset_len,
    to_multiset_remove,
};
use crate::text::{chars_of, texts};

verus! {

/// `a` and `b` hold the same characters at every index below `k`.
pub open spec fn agree_before(a: Seq<char>, b: Seq<char>, k: int) -> bool {
    &&& 0 <= k <= a.len()
    &&& k <= b.len()
    &&& forall|i: int| 0 <= i < k ==> a[i] == b[i]
}

/// `a` and `b` part at index `k`, and `a` comes first there: `a` ends, or
/// holds the character with the lower code point.
pub open spec fn parts_below(a: Seq<char>, b: Seq<char>, k: int) -> bool {
    &&& agree_before(a, b, k)
    &&& k < b.len()
    &&& k < a.len() ==> (a[k] as int) < (b[k] as int)
}

/// `a` comes strictly before `b` in lexicographic order.
pub open spec fn lex_lt(a: Seq<char>, b: Seq<char>) -> bool {
    exists|k: int| parts_below(a, b, k)
}

/// `a` comes before `b` in lexicographic order, or equals it.
pub open spec fn lex_le(a: Seq<char>, b: Seq<char>) -> bool {
    a == b || lex_lt(a, b)
}

/// Each text of the list comes before, or equals, those after it.
pub open spec fn is_sorted(list: Seq<Seq<char>>) -> bool {
    forall|i: int, j: int| 0 <= i < j < list.len() ==> lex_le(#[trigger] list[i], #[trigger] list[j])
}

/// `sorted` holds the texts of `list`, each as often as `list` does, in
/// ascending order.
pub open spec fn is_sorting_of(sorted: Seq<Seq<char>>, list: Seq<Seq<char>>) -> bool {
    &&& is_sorted(sorted)
    &&& sorted.to_multiset() == list.to_multiset()
}

proof fn lemma_total_from(a: Seq<char>, b: Seq<char>, k: int)
    requires
        agree_before(a, b, k),
    ensures
        lex_le(a, b) || lex_lt(b, a),
    decreases a.len() - k,
{
    if k == a.len() {
        if k == b.len() {
            assert(a =~= b);
        } else {
            assert(parts_below(a, b, k));
        }
    } else if k == b.len() {
        assert(agree_before(b, a, k));
        assert(parts_below(b, a, k));
    } else if a[k] == b[k] {
        lemma_total_from(a, b, k + 1);
    } else if (a[k] as int) < (b[k] as int) {
        assert(parts_below(a, b, k));
    } else {
        assert(agree_before(b, a, k));
        assert(parts_below(b, a, k));
    }
}

/// Of two texts one comes before the other, or they are equal.
pub proof fn lemma_lex_total(a: Seq<char>, b: Seq<char>)
    ensures
        lex_le(a, b) || lex_lt(b, a),
{
    lemma_total_from(a, b, 0);
}

/// No text comes strictly before itself, nor two texts before each other.
pub proof fn lemma_lex_asymmetric(a: Seq<char>, b: Seq<char>)
    ensures
        !(lex_lt(a, b) && lex_le(b, a)),
{
    if lex_lt(a, b) && lex_le(b, a) {
        let k = choose|k: int| parts_below(a, b, k);
        if a == b {
        } else {
            let m = choose|m: int| parts_below(b, a, m);
            if k < m {
                assert(b[k] == a[k]);
            } else if m < k {
                assert(a[m] == b[m]);
            }
        }
    }
}

/// The order is transitive.
pub proof fn lemma_lex_transitive(a: Seq<char>, b: Seq<char>, c: Seq<char>)
    requires
        lex_le(a, b),
        lex_le(b, c),
    ensures
        lex_le(a, c),
        lex_lt(a, b) || lex_lt(b, c) ==> lex_lt(a, c),
{
    if a != b && b != c {
        let k = choose|k: int| parts_below(a, b, k);
        let m = choose|m: int| parts_below(b, c, m);
        let n = if k <= m { k } else { m };
        assert(agree_before(a, c, n)) by {
            assert forall|i: int| 0 <= i < n implies a[i] == c[i] by {
                assert(a[i] == b[i]);
                assert(b[i] == c[i]);
            }
        }
        if k < m {
            assert(b[k] == c[k]);
        } else if m < k {
            assert(a[m] == b[m]);
        }
        assert(parts_below(a, c, n));
    }
}

/// Two texts that each come before, or equal, the other are the same.
pub proof fn lemma_lex_antisymmetric(a: Seq<char>, b: Seq<char>)
    requires
        lex_le(a, b),
        lex_le(b, a),
    ensures
        a == b,
{
    lemma_lex_asymmetric(a, b);
}

proof fn lemma_first_is_least(sorted: Seq<Seq<char>>, other: Seq<Seq<char>>)
    requires
        is_sorted(sorted),
        sorted.len() > 0,
        other.len() > 0,
        sorted.to_multiset() == other.to_multiset(),
    ensures
        lex_le(sorted[0], other[0]),
{
    to_multiset_contains(sorted, other[0]);
    to_multiset_contains(other, other[0]);
    assert(other.contains(other[0]));
    let j = choose|j: int| 0 <= j < sorted.len() && sorted[j] == other[0];
    if j > 0 {
        assert(lex_le(sorted[0], sorted[j]));
    }
}

/// Sorting has one outcome: two ascending lists that hold the same texts
/// equally often are the same list.
pub proof fn lemma_sorting_is_unique(a: Seq<Seq<char>>, b: Seq<Seq<char>>)
    requires
        is_sorted(a),
        is_sorted(b),
        a.to_multiset() == b.to_multiset(),
    ensures
        a == b,
    decreases a.len(),
{
    to_multiset_len(a);
    to_multiset_len(b);
    if a.len() == 0 {
        assert(a =~= b);
    } else {
        lemma_first_is_least(a, b);
        lemma_first_is_least(b, a);
        lemma_lex_antisymmetric(a[0], b[0]);
        let ra = a.remove(0);
        let rb = b.remove(0);
        to_multiset_remove(a, 0);
        to_multiset_remove(b, 0);
        assert forall|i: int, j: int| 0 <= i < j < ra.len() implies lex_le(
            #[trigger] ra[i],
            #[trigger] ra[j],
        ) by {
            assert(lex_le(a[i + 1], a[j + 1]));
        }
        assert forall|i: int, j: int| 0 <= i < j < rb.len() implies lex_le(
            #[trigger] rb[i],
            #[trigger] rb[j],
        ) by {
            assert(lex_le(b[i + 1], b[j + 1]));
        }
        lemma_sorting_is_unique(ra, rb);
        assert(a =~= seq![a[0]] + ra);
        assert(b =~= seq![b[0]] + rb);
    }
}

/// Whether `a` comes strictly before `b`.
pub fn comes_before(a: &str, b: &str) -> (before: bool)
    ensures
        before == lex_lt(a@, b@),
{
    let left = chars_of(a);
    let right = chars_of(b);
    let mut k: usize = 0;
    while k < left.len() && k < right.len()
        invariant
            left@ == a@,
            right@ == b@,
            agree_before(a@, b@, k as int),
        decreases left.len() - k,
    {
        if left[k] != right[k] {
            let before = left[k] < right[k];
            proof {
                if before {
                    assert(parts_below(a@, b@, k as int));
                } else {
                    assert(agree_before(b@, a@, k as int));
                    assert(parts_below(b@, a@, k as int));
                    lemma_lex_asymmetric(b@, a@);
                }
            }
            return before;
        }
        k += 1;
    }
    let before = k < right.len();
    proof {
        if before {
            assert(parts_below(a@, b@, k as int));
        } else {
            assert(agree_before(b@, a@, k as int));
            if k < left.len() {
                assert(parts_below(b@, a@, k as int));
            } else {
                assert(a@ =~= b@);
            }
            lemma_lex_asymmetric(b@, a@);
            lemma_lex_asymmetric(a@, b@);
        }
    }
    before
}

/// The strings of `list` in ascending lexicographic order.
pub fn sorted(list: &Vec<String>) -> (out: Vec<String>)
    ensures
        is_sorting_of(texts(out@), texts(list@)),
{
    let mut out: Vec<String> = Vec::new();
    let mut taken: usize = 0;
    assert(texts(out@) =~= texts(list@).take(0));
    while taken < list.len()
        invariant
            taken <= list.len(),
            is_sorted(texts(out@)),
            texts(out@).to_multiset() == texts(list@).take(taken as int).to_multiset(),
        decreases list.len() - taken,
    {
        let item = list[taken].clone();
        let mut at: usize = 0;
        while at < out.len() && !comes_before(item.as_str(), out[at].as_str())
            invariant
                at <= out.len(),
                forall|i: int| 0 <= i < at ==> lex_le(#[trigger] texts(out@)[i], item@),
            decreases out.len() - at,
        {
            proof {
                lemma_lex_total(item@, out[at as int]@);
                lemma_lex_total(out[at as int]@, item@);
            }
            at += 1;
        }
        let ghost before = texts(out@);
        out.insert(at, item);
        proof {
            let after = texts(out@);
            assert(after =~= before.insert(at as int, item@));
            assert forall|i: int, j: int| 0 <= i < j < after.len() implies lex_le(
                #[trigger] after[i],
                #[trigger] after[j],
            ) by {
                if j < at {
                    assert(lex_le(before[i], before[j]));
                } else if j == at {
                    assert(lex_le(before[i], item@));
                } else if i == at {
                    assert(lex_lt(item@, before[at as int]));
                    if j - 1 > at {
                        assert(lex_le(before[at as int], before[j - 1]));
                    }
                    lemma_lex_transitive(item@, before[at as int], before[j - 1]);
                } else if i > at {
                    assert(lex_le(before[i - 1], before[j - 1]));
                } else {
                    assert(lex_le(before[i], item@));
                    assert(lex_lt(item@, before[at as int]));
                    if j - 1 > at {
                        assert(lex_le(before[at as int], before[j - 1]));
                    }
                    lemma_lex_transitive(item@, before[at as int], before[j - 1]);
                    lemma_lex_transitive(before[i], item@, before[j - 1]);
                }
            }
            to_multiset_insert(before, at as int, item@);
            let seen = texts(list@).take(taken as int);
            assert(texts(list@).take(taken + 1) =~= seen.push(item@));
            to_multiset_build(seen, item@);
        }
        taken += 1;
    }
    assert(texts(list@).take(taken as int) =~= texts(list@));
    out
}

} // verus!
