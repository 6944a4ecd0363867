//! Text in order: comparing, sorting, dropping repetitions.
use vstd::prelude::*;
use vstd::relations;

use crate::text;
use crate::text::{chars_of, push_text, same_text};

verus! {

/// Whether `a` comes before `b` in the order of a dictionary, by the code points of the
/// characters, or is the same.
pub open spec fn text_le(a: Seq<char>, b: Seq<char>) -> bool
    decreases a.len(),
{
    if a.len() == 0 {
        true
    } else if b.len() == 0 {
        false
    } else if a[0] == b[0] {
        text_le(a.skip(1), b.skip(1))
    } else {
        a[0] < b[0]
    }
}

/// `text_le` as a relation.
pub open spec fn text_order() -> spec_fn(Seq<char>, Seq<char>) -> bool {
    |a: Seq<char>, b: Seq<char>| text_le(a, b)
}

/// The texts in order.
pub open spec fn sorted(list: Seq<Seq<char>>) -> Seq<Seq<char>> {
    list.sort_by(text_order())
}

/// The texts without those that are the same as the one before them.
pub open spec fn deduped(list: Seq<Seq<char>>) -> Seq<Seq<char>>
    decreases list.len(),
{
    if list.len() <= 1 {
        list
    } else if list.last() == list[list.len() - 2] {
        deduped(list.drop_last())
    } else {
        deduped(list.drop_last()).push(list.last())
    }
}

proof fn lemma_le_reflexive(a: Seq<char>)
    ensures
        text_le(a, a),
    decreases a.len(),
{
    if a.len() > 0 {
        lemma_le_reflexive(a.skip(1));
    }
}

proof fn lemma_le_antisymmetric(a: Seq<char>, b: Seq<char>)
    requires
        text_le(a, b),
        text_le(b, a),
    ensures
        a == b,
    decreases a.len(),
{
    if a.len() > 0 && b.len() > 0 {
        lemma_le_antisymmetric(a.skip(1), b.skip(1));
        assert forall|i: int| 0 <= i < a.len() implies a[i] == b[i] by {
            if i > 0 {
                assert(a[i] == a.skip(1)[i - 1]);
                assert(b[i] == b.skip(1)[i - 1]);
            }
        }
        assert(a.len() == a.skip(1).len() + 1);
    }
    assert(a =~= b);
}

proof fn lemma_le_transitive(a: Seq<char>, b: Seq<char>, c: Seq<char>)
    requires
        text_le(a, b),
        text_le(b, c),
    ensures
        text_le(a, c),
    decreases a.len(),
{
    if a.len() > 0 && b.len() > 0 && c.len() > 0 && a[0] == b[0] && b[0] == c[0] {
        lemma_le_transitive(a.skip(1), b.skip(1), c.skip(1));
    }
}

proof fn lemma_le_total(a: Seq<char>, b: Seq<char>)
    ensures
        text_le(a, b) || text_le(b, a),
    decreases a.len(),
{
    if a.len() > 0 && b.len() > 0 && a[0] == b[0] {
        lemma_le_total(a.skip(1), b.skip(1));
    }
}

/// The order of text is total.
pub proof fn lemma_text_order()
    ensures
        relations::total_ordering(text_order()),
{
    let le = text_order();
    assert(relations::reflexive(le)) by {
        assert forall|x: Seq<char>| #[trigger] le(x, x) by {
            lemma_le_reflexive(x);
        }
    }
    assert(relations::antisymmetric(le)) by {
        assert forall|x: Seq<char>, y: Seq<char>| #[trigger] le(x, y) && #[trigger] le(y, x) implies x
            == y by {
            lemma_le_antisymmetric(x, y);
        }
    }
    assert(relations::transitive(le)) by {
        assert forall|x: Seq<char>, y: Seq<char>, z: Seq<char>| #[trigger] le(x, y) && #[trigger] le(
            y,
            z,
        ) implies le(x, z) by {
            lemma_le_transitive(x, y, z);
        }
    }
    assert(relations::strongly_connected(le)) by {
        assert forall|x: Seq<char>, y: Seq<char>| #[trigger] le(x, y) || #[trigger] le(y, x) by {
            lemma_le_total(x, y);
        }
    }
}

/// Sorting keeps the texts, puts them in order, and is the only way to do both.
pub proof fn law_sorted(list: Seq<Seq<char>>)
    ensures
        sorted(list).to_multiset() == list.to_multiset(),
        sorted(list).len() == list.len(),
        forall|i: int, j: int|
            0 <= i < j < sorted(list).len() ==> text_le(
                #[trigger] sorted(list)[i],
                #[trigger] sorted(list)[j],
            ),
        forall|other: Seq<Seq<char>>|
            #![trigger other.to_multiset()]
            other.to_multiset() == list.to_multiset() && (forall|i: int, j: int|
                0 <= i < j < other.len() ==> text_le(
                    #[trigger] other[i],
                    #[trigger] other[j],
                )) ==> other == sorted(list),
{
    broadcast use vstd::seq_lib::group_to_multiset_ensures;

    lemma_text_order();
    let le = text_order();
    list.lemma_sort_by_ensures(le);
    assert(sorted(list).to_multiset().len() == list.to_multiset().len());
    assert forall|i: int, j: int| 0 <= i < j < sorted(list).len() implies text_le(
        #[trigger] sorted(list)[i],
        #[trigger] sorted(list)[j],
    ) by {
        assert(le(sorted(list)[i], sorted(list)[j]));
    }
    assert forall|other: Seq<Seq<char>>|
        #![trigger other.to_multiset()]
        other.to_multiset() == list.to_multiset() && (forall|i: int, j: int|
            0 <= i < j < other.len() ==> text_le(
                #[trigger] other[i],
                #[trigger] other[j],
            )) implies other == sorted(list) by {
        assert(relations::sorted_by(other, le));
        vstd::seq_lib::lemma_sorted_unique(other, sorted(list), le);
    }
}

/// Whether `a` comes before `b` or is the same.
fn comes_before(a: &str, b: &str) -> (r: bool)
    ensures
        r == text_le(a@, b@),
{
    let x: Vec<char> = chars_of(a);
    let y: Vec<char> = chars_of(b);
    let mut i: usize = 0;
    proof {
        assert(x@.skip(0) =~= a@);
        assert(y@.skip(0) =~= b@);
    }
    while i < x.len() && i < y.len()
        invariant
            i <= x@.len(),
            i <= y@.len(),
            text_le(a@, b@) == text_le(x@.skip(i as int), y@.skip(i as int)),
        decreases x@.len() - i,
    {
        proof {
            assert(x@.skip(i as int)[0] == x@[i as int]);
            assert(y@.skip(i as int)[0] == y@[i as int]);
            assert(x@.skip(i as int).skip(1) =~= x@.skip(i + 1));
            assert(y@.skip(i as int).skip(1) =~= y@.skip(i + 1));
        }
        if x[i] != y[i] {
            return x[i] < y[i];
        }
        i += 1;
    }
    i == x.len()
}

/// The strings in order.
pub fn sort(list: &Vec<String>) -> (r: Vec<String>)
    ensures
        text::texts(r@) == sorted(text::texts(list@)),
{
    let ghost all = text::texts(list@);
    let ghost le = text_order();
    let mut r: Vec<String> = Vec::new();
    let mut i: usize = 0;
    proof {
        assert(text::texts(r@) =~= all.take(0));
    }
    while i < list.len()
        invariant
            i <= list@.len(),
            all == text::texts(list@),
            le == text_order(),
            text::texts(r@).to_multiset() == all.take(i as int).to_multiset(),
            relations::sorted_by(text::texts(r@), le),
        decreases list@.len() - i,
    {
        let ghost before = text::texts(r@);
        let ghost item = all[i as int];
        let mut k: usize = r.len();
        while k > 0 && !comes_before(r[k - 1].as_str(), list[i].as_str())
            invariant
                k <= r@.len(),
                i < list@.len(),
                before == text::texts(r@),
                item == list@[i as int]@,
                forall|j: int| k <= j < before.len() ==> !text_le(#[trigger] before[j], item),
            decreases k,
        {
            k -= 1;
        }
        r.insert(k, list[i].clone());
        i += 1;
        proof {
            broadcast use vstd::seq_lib::group_to_multiset_ensures;

            let after = text::texts(r@);
            assert(after =~= before.insert(k as int, item));
            vstd::seq_lib::to_multiset_insert(before, k as int, item);
            assert(all.take(i as int) =~= all.take(i - 1).push(item));
            lemma_text_order();
            assert forall|a: int, b: int| 0 <= a < b < after.len() implies #[trigger] le(
                after[a],
                after[b],
            ) by {
                if a < k && b < k {
                    assert(le(before[a], before[b]));
                } else if a < k && b == k {
                    assert(text_le(before[k - 1], item));
                    if a < k - 1 {
                        assert(le(before[a], before[k - 1]));
                        assert(le(before[k - 1], item));
                    }
                } else if a < k {
                    assert(le(before[a], before[b - 1]));
                } else if a == k {
                    assert(!text_le(before[b - 1], item));
                    assert(!le(before[b - 1], item));
                    assert(le(item, before[b - 1]) || le(before[b - 1], item));
                } else {
                    assert(le(before[a - 1], before[b - 1]));
                }
            }
        }
    }
    proof {
        assert(all.take(i as int) =~= all);
        lemma_text_order();
        all.lemma_sort_by_ensures(le);
        vstd::seq_lib::lemma_sorted_unique(text::texts(r@), sorted(all), le);
    }
    r
}

/// The strings without those that are the same as the one before them.
pub fn dedup(list: &Vec<String>) -> (r: Vec<String>)
    ensures
        text::texts(r@) == deduped(text::texts(list@)),
{
    let ghost all = text::texts(list@);
    let mut r: Vec<String> = Vec::new();
    let mut i: usize = 0;
    assert(text::texts(r@) =~= deduped(all.take(0)));
    while i < list.len()
        invariant
            i <= list@.len(),
            all == text::texts(list@),
            text::texts(r@) == deduped(all.take(i as int)),
        decreases list@.len() - i,
    {
        proof {
            assert(all.take(i + 1).drop_last() =~= all.take(i as int));
            if i == 0 {
                assert(all.take(1) =~= Seq::empty().push(all[0]));
            }
        }
        if i == 0 || !same_text(list[i].as_str(), list[i - 1].as_str()) {
            push_text(&mut r, list[i].clone());
        }
        i += 1;
    }
    assert(all.take(i as int) =~= all);
    r
}

/// Whether the texts stand in order.
pub open spec fn in_order(list: Seq<Seq<char>>) -> bool {
    forall|i: int, j: int|
        0 <= i < j < list.len() ==> text_le(#[trigger] list[i], #[trigger] list[j])
}

/// Sorting takes no text away and adds none.
pub proof fn law_sorted_keeps(list: Seq<Seq<char>>, x: Seq<char>)
    ensures
        sorted(list).contains(x) <==> list.contains(x),
{
    broadcast use vstd::seq_lib::group_to_multiset_ensures;

    law_sorted(list);
    assert(sorted(list).to_multiset().count(x) == list.to_multiset().count(x));
}

/// Leaving out repetitions takes away no text that does not stay elsewhere, and adds none.
pub proof fn law_deduped_keeps(list: Seq<Seq<char>>, x: Seq<char>)
    ensures
        deduped(list).contains(x) <==> list.contains(x),
    decreases list.len(),
{
    if list.len() > 1 {
        let before = list.drop_last();
        law_deduped_keeps(before, x);
        assert(list =~= before.push(list.last()));
        assert(before[before.len() - 1] == list[list.len() - 2]);
        if list.contains(x) {
            let i = choose|i: int| 0 <= i < list.len() && list[i] == x;
            if i < before.len() {
                assert(before[i] == x);
            } else {
                assert(x == list.last());
            }
        }
        if before.contains(x) {
            let i = choose|i: int| 0 <= i < before.len() && before[i] == x;
            assert(list[i] == x);
        }
        if list.last() != list[list.len() - 2] {
            let kept = deduped(before);
            let all = kept.push(list.last());
            assert(deduped(list) == all);
            if kept.contains(x) {
                let i = choose|i: int| 0 <= i < kept.len() && kept[i] == x;
                assert(all[i] == x);
            }
            if x == list.last() {
                assert(all[kept.len() as int] == x);
                assert(list[list.len() - 1] == x);
            }
            if all.contains(x) {
                let i = choose|i: int| 0 <= i < all.len() && all[i] == x;
                if i < kept.len() {
                    assert(kept[i] == x);
                }
            }
        }
    }
}

/// Texts in order stay in order without repetitions, and then no text is there twice.
pub proof fn law_deduped(list: Seq<Seq<char>>)
    requires
        in_order(list),
    ensures
        in_order(deduped(list)),
        deduped(list).no_duplicates(),
    decreases list.len(),
{
    if list.len() > 1 {
        let before = list.drop_last();
        let last = list.last();
        assert(in_order(before)) by {
            assert forall|i: int, j: int| 0 <= i < j < before.len() implies text_le(
                #[trigger] before[i],
                #[trigger] before[j],
            ) by {
                assert(before[i] == list[i] && before[j] == list[j]);
            }
        }
        law_deduped(before);
        let kept = deduped(before);
        let second = list[list.len() - 2];
        assert(last == list[list.len() - 1]);
        if last != second {
            assert forall|i: int| 0 <= i < kept.len() implies text_le(#[trigger] kept[i], last)
                && kept[i] != last by {
                law_deduped_keeps(before, kept[i]);
                assert(kept.contains(kept[i]));
                let k = choose|k: int| 0 <= k < before.len() && before[k] == kept[i];
                assert(list[k] == kept[i]);
                assert(text_le(list[k], last));
                if kept[i] == last {
                    assert(text_le(second, last));
                    if k < list.len() - 2 {
                        assert(text_le(list[k], second));
                    }
                    lemma_le_antisymmetric(second, last);
                }
            }
            let all = kept.push(last);
            assert forall|i: int, j: int| 0 <= i < j < all.len() implies text_le(
                #[trigger] all[i],
                #[trigger] all[j],
            ) by {
                assert(all[i] == kept[i]);
                if j < kept.len() {
                    assert(all[j] == kept[j]);
                }
            }
            assert forall|i: int, j: int|
                0 <= i < all.len() && 0 <= j < all.len() && i != j implies #[trigger] all[i]
                != #[trigger] all[j] by {
                if i < kept.len() {
                    assert(all[i] == kept[i]);
                }
                if j < kept.len() {
                    assert(all[j] == kept[j]);
                }
            }
        }
    }
}

/// Texts are ordered by the first character in which they differ, and one that ends before that
/// comes first.
pub proof fn law_order_of_texts(common: Seq<char>, a: Seq<char>, b: Seq<char>)
    ensures
        text_le(common + a, common + b) <==> text_le(a, b),
        text_le(common, common + b),
        b.len() > 0 ==> !text_le(common + b, common),
        a.len() > 0 && b.len() > 0 && a[0] < b[0] ==> text_le(a, b) && !text_le(b, a),
    decreases common.len(),
{
    if common.len() == 0 {
        assert(common + a =~= a);
        assert(common + b =~= b);
    } else {
        let rest = common.skip(1);
        law_order_of_texts(rest, a, b);
        assert((common + a).skip(1) =~= rest + a);
        assert((common + b).skip(1) =~= rest + b);
    }
}

/// Only what is the same as the text before it is left out.
pub proof fn law_only_repetitions_are_left_out(list: Seq<Seq<char>>, x: Seq<char>)
    ensures
        list.len() > 0 ==> deduped(list.push(x)) == (if list.last() == x {
            deduped(list)
        } else {
            deduped(list).push(x)
        }),
        deduped(seq![x]) == seq![x],
{
    let more = list.push(x);
    assert(more.drop_last() =~= list);
    if list.len() > 0 {
        assert(more[more.len() - 2] == list.last());
    }
}

} // verus!
