//! The order in which `String`s sort (code point by code point, a prefix
//! first), and sorting and deduplicating lists of them.

use vstd::prelude::*;
use vstd::relations::{sorted_by, total_ordering};

use crate::text::{owned, texts};

verus! {

/// `a <= b` for strings: lexicographic by code point, a proper prefix
/// first. (UTF-8 preserves code point order, so this is `String`'s `Ord`.)
pub open spec fn text_le(a: Seq<char>, b: Seq<char>) -> bool
    decreases a.len(),
{
    if a.len() == 0 {
        true
    } else if b.len() == 0 {
        false
    } else if a[0] != b[0] {
        a[0] < b[0]
    } else {
        text_le(a.drop_first(), b.drop_first())
    }
}

pub open spec fn text_order() -> spec_fn(Seq<char>, Seq<char>) -> bool {
    |a: Seq<char>, b: Seq<char>| text_le(a, b)
}

proof fn lemma_text_le_reflexive(a: Seq<char>)
    ensures
        text_le(a, a),
    decreases a.len(),
{
    if a.len() > 0 {
        lemma_text_le_reflexive(a.drop_first());
    }
}

proof fn lemma_text_le_antisymmetric(a: Seq<char>, b: Seq<char>)
    requires
        text_le(a, b),
        text_le(b, a),
    ensures
        a == b,
    decreases a.len(),
{
    if a.len() > 0 && b.len() > 0 {
        lemma_text_le_antisymmetric(a.drop_first(), b.drop_first());
        assert(a =~= seq![a[0]] + a.drop_first());
        assert(b =~= seq![b[0]] + b.drop_first());
    }
}

proof fn lemma_text_le_transitive(a: Seq<char>, b: Seq<char>, c: Seq<char>)
    requires
        text_le(a, b),
        text_le(b, c),
    ensures
        text_le(a, c),
    decreases a.len(),
{
    if a.len() > 0 && b.len() > 0 && c.len() > 0 && a[0] == b[0] && b[0] == c[0] {
        lemma_text_le_transitive(a.drop_first(), b.drop_first(), c.drop_first());
    }
}

proof fn lemma_text_le_total(a: Seq<char>, b: Seq<char>)
    ensures
        text_le(a, b) || text_le(b, a),
    decreases a.len(),
{
    if a.len() > 0 && b.len() > 0 && a[0] == b[0] {
        lemma_text_le_total(a.drop_first(), b.drop_first());
    }
}

/// `text_le` is a total order.
pub proof fn lemma_text_order_total()
    ensures
        total_ordering(text_order()),
{
    let le = text_order();
    assert forall|x: Seq<char>| #[trigger] le(x, x) by {
        lemma_text_le_reflexive(x);
    }
    assert forall|x: Seq<char>, y: Seq<char>| #[trigger] le(x, y) && #[trigger] le(y, x) implies x
        == y by {
        lemma_text_le_antisymmetric(x, y);
    }
    assert forall|x: Seq<char>, y: Seq<char>, z: Seq<char>| #[trigger] le(x, y) && #[trigger] le(
        y,
        z,
    ) implies le(x, z) by {
        lemma_text_le_transitive(x, y, z);
    }
    assert forall|x: Seq<char>, y: Seq<char>| #[trigger] le(x, y) || #[trigger] le(y, x) by {
        lemma_text_le_total(x, y);
    }
}

/// `a <= b` on two strings.
pub fn text_le_exec(a: &str, b: &str) -> (r: bool)
    ensures
        r == text_le(a@, b@),
{
    let x = crate::text::chars_of(a);
    let y = crate::text::chars_of(b);
    let mut i: usize = 0;
    assert(x@.skip(0) =~= x@ && y@.skip(0) =~= y@);
    while i < x.len() && i < y.len() && x[i] == y[i]
        invariant
            i <= x@.len(),
            i <= y@.len(),
            x@ == a@,
            y@ == b@,
            text_le(a@, b@) == text_le(x@.skip(i as int), y@.skip(i as int)),
        decreases x@.len() - i,
    {
        assert(x@.skip(i as int).drop_first() =~= x@.skip(i + 1));
        assert(y@.skip(i as int).drop_first() =~= y@.skip(i + 1));
        i = i + 1;
    }
    if i == x.len() {
        true
    } else if i == y.len() {
        false
    } else {
        x[i] < y[i]
    }
}

/// The texts of `items`, sorted (`slice::sort`).
pub open spec fn sorted_texts(items: Seq<Seq<char>>) -> Seq<Seq<char>> {
    items.sort_by(text_order())
}

/// `Vec::dedup`: each run of equal neighbours kept once.
pub open spec fn dedup(s: Seq<Seq<char>>) -> Seq<Seq<char>>
    decreases s.len(),
{
    if s.len() <= 1 {
        s
    } else if s.last() == s[s.len() - 2] {
        dedup(s.drop_last())
    } else {
        dedup(s.drop_last()).push(s.last())
    }
}

/// A copy of `items`, sorted.
pub fn sort_strings(items: &Vec<String>) -> (r: Vec<String>)
    ensures
        texts(r@) == sorted_texts(texts(items@)),
{
    let ghost le = text_order();
    proof {
        lemma_text_order_total();
    }
    let mut out: Vec<String> = Vec::new();
    let mut i: usize = 0;
    assert(texts(items@).take(0) =~= texts(out@));
    while i < items.len()
        invariant
            le == text_order(),
            total_ordering(le),
            i <= items@.len(),
            sorted_by(texts(out@), le),
            texts(out@).to_multiset() == texts(items@).take(i as int).to_multiset(),
        decreases items@.len() - i,
    {
        let x = items[i].as_str();
        // The first position whose element sorts after `x`.
        let mut j: usize = 0;
        while j < out.len() && text_le_exec(out[j].as_str(), x)
            invariant
                le == text_order(),
                j <= out@.len(),
                forall|m: int| 0 <= m < j ==> text_le(#[trigger] texts(out@)[m], x@),
            decreases out@.len() - j,
        {
            j = j + 1;
        }
        let ghost before = texts(out@);
        out.insert(j, owned(x));
        proof {
            assert(texts(out@) =~= before.insert(j as int, x@));
            vstd::seq_lib::to_multiset_insert(before, j as int, x@);
            assert(texts(items@).take(i + 1) =~= texts(items@).take(i as int).push(x@));
            vstd::seq_lib::to_multiset_build(texts(items@).take(i as int), x@);
            if j < before.len() {
                lemma_text_le_total(before[j as int], x@);
            }
            let s = texts(out@);
            assert forall|p: int, q: int| 0 <= p < q < s.len() implies #[trigger] le(s[p], s[q]) by {
                if q < j {
                    assert(s[p] == before[p] && s[q] == before[q]);
                } else if q == j {
                    assert(s[p] == before[p]);
                } else if p == j {
                    assert(s[q] == before[q - 1]);
                    if q - 1 > j {
                        assert(le(before[j as int], before[q - 1]));
                        lemma_text_le_transitive(x@, before[j as int], before[q - 1]);
                    }
                } else if p < j {
                    assert(s[p] == before[p] && s[q] == before[q - 1]);
                    assert(le(before[p], before[q - 1]));
                } else {
                    assert(s[p] == before[p - 1] && s[q] == before[q - 1]);
                    assert(le(before[p - 1], before[q - 1]));
                }
            }
        }
        i = i + 1;
    }
    proof {
        assert(texts(items@).take(items@.len() as int) =~= texts(items@));
        texts(items@).lemma_sort_by_ensures(le);
        vstd::seq_lib::lemma_sorted_unique(texts(out@), texts(items@).sort_by(le), le);
    }
    out
}

/// A copy of `items` with each run of equal neighbours kept once.
pub fn dedup_strings(items: &Vec<String>) -> (r: Vec<String>)
    ensures
        texts(r@) == dedup(texts(items@)),
{
    let mut out: Vec<String> = Vec::new();
    let mut i: usize = 0;
    while i < items.len()
        invariant
            i <= items@.len(),
            texts(out@) == dedup(texts(items@).take(i as int)),
            i > 0 ==> out@.len() > 0 && out@.last()@ == items@[i - 1]@,
        decreases items@.len() - i,
    {
        let ghost t = texts(items@).take(i + 1);
        assert(t.drop_last() =~= texts(items@).take(i as int));
        proof {
            if i >= 1 {
                lemma_dedup_last(texts(items@).take(i as int));
            }
        }
        if i > 0 && items[i] == items[i - 1] {
            assert(t.last() == t[t.len() - 2]);
        } else {
            out.push(owned(items[i].as_str()));
            assert(texts(out@) =~= dedup(t));
        }
        i = i + 1;
    }
    assert(texts(items@).take(items@.len() as int) =~= texts(items@));
    out
}

proof fn lemma_dedup_last(s: Seq<Seq<char>>)
    requires
        s.len() > 0,
    ensures
        dedup(s).len() > 0,
        dedup(s).last() == s.last(),
    decreases s.len(),
{
    if s.len() > 1 && s.last() == s[s.len() - 2] {
        lemma_dedup_last(s.drop_last());
    }
}

} // verus!
