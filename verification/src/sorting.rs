//! Lists in the order of names, without regard to case.

use vstd::prelude::*;

use crate::text::{chars_of, precedes, to_lowercase};

verus! {

/// `x` put into a list that is ordered by name, behind those that do not come after it.
pub open spec fn insert_named<T>(
    list: Seq<T>,
    x: T,
    name: spec_fn(T) -> Seq<char>,
) -> Seq<T>
    decreases list.len(),
{
    if list.len() == 0 {
        seq![x]
    } else if crate::text::comes_before(
        crate::text::lowercase(name(x)),
        crate::text::lowercase(name(list.last())),
    ) {
        insert_named(list.drop_last(), x, name).push(list.last())
    } else {
        list.push(x)
    }
}

/// The items by name in lower case; those with the same stay in their order.
pub open spec fn sorted_by_name<T>(items: Seq<T>, name: spec_fn(T) -> Seq<char>) -> Seq<T>
    decreases items.len(),
{
    if items.len() == 0 {
        seq![]
    } else {
        insert_named(sorted_by_name(items.drop_last(), name), items.last(), name)
    }
}

/// No item comes before one that stands in front of it.
pub open spec fn names_ordered<T>(list: Seq<T>, name: spec_fn(T) -> Seq<char>) -> bool {
    forall|i: int, j: int|
        0 <= i < j < list.len() ==> !crate::text::comes_before(
            crate::text::lowercase(name(#[trigger] list[j])),
            crate::text::lowercase(name(#[trigger] list[i])),
        )
}

/// Inserting keeps the order and adds the one item.
proof fn lemma_insert_named<T>(list: Seq<T>, x: T, name: spec_fn(T) -> Seq<char>)
    requires
        names_ordered(list, name),
    ensures
        names_ordered(insert_named(list, x, name), name),
        insert_named(list, x, name).to_multiset() == list.to_multiset().insert(x),
    decreases list.len(),
{
    let out = insert_named(list, x, name);
    let kx = crate::text::lowercase(name(x));
    broadcast use vstd::seq_lib::group_to_multiset_ensures;

    if list.len() == 0 {
        assert(list.push(x) == seq![x]);
        assert(list.push(x).to_multiset() == list.to_multiset().insert(x));
    } else {
        let last = list.last();
        let kl = crate::text::lowercase(name(last));
        let front = list.drop_last();
        if crate::text::comes_before(kx, kl) {
            assert(names_ordered(front, name)) by {
                assert forall|i: int, j: int|
                    0 <= i < j < front.len() implies !crate::text::comes_before(
                    crate::text::lowercase(name(#[trigger] front[j])),
                    crate::text::lowercase(name(#[trigger] front[i])),
                ) by {
                    assert(front[i] == list[i] && front[j] == list[j]);
                }
            }
            lemma_insert_named(front, x, name);
            let mid = insert_named(front, x, name);
            crate::text::order_is_total(kl, kx);
            assert forall|i: int| 0 <= i < mid.len() implies !crate::text::comes_before(
                kl,
                crate::text::lowercase(name(#[trigger] mid[i])),
            ) by {
                assert(mid.to_multiset().contains(mid[i]));
                if mid[i] != x {
                    assert(front.to_multiset().contains(mid[i]));
                    let k = choose|k: int| 0 <= k < front.len() && front[k] == mid[i];
                    assert(list[k] == mid[i]);
                    assert(list[list.len() - 1] == last);
                }
            }
            assert forall|i: int, j: int|
                0 <= i < j < out.len() implies !crate::text::comes_before(
                crate::text::lowercase(name(#[trigger] out[j])),
                crate::text::lowercase(name(#[trigger] out[i])),
            ) by {
                assert(out[i] == mid[i]);
                if j < mid.len() {
                    assert(out[j] == mid[j]);
                }
            }
            assert(front.push(last) == list);
            assert(list.to_multiset() == front.to_multiset().insert(last));
            assert(out.to_multiset() == mid.to_multiset().insert(last));
            assert(front.to_multiset().insert(x).insert(last) == front.to_multiset().insert(
                last,
            ).insert(x));
        } else {
            assert forall|i: int, j: int|
                0 <= i < j < out.len() implies !crate::text::comes_before(
                crate::text::lowercase(name(#[trigger] out[j])),
                crate::text::lowercase(name(#[trigger] out[i])),
            ) by {
                assert(out[i] == list[i]);
                if j < list.len() {
                    assert(out[j] == list[j]);
                } else if i < list.len() - 1 {
                    let ki = crate::text::lowercase(name(list[i]));
                    assert(list[list.len() - 1] == last);
                    assert(!crate::text::comes_before(kl, ki));
                    if crate::text::comes_before(kx, ki) {
                        crate::text::order_is_total(ki, kl);
                        if ki == kl {
                        } else {
                            crate::text::order_is_transitive(kx, ki, kl);
                        }
                    }
                }
            }
        }
    }
}

/// A sorted list is in the order of names in lower case, and holds the same items.
pub proof fn sorting_orders<T>(items: Seq<T>, name: spec_fn(T) -> Seq<char>)
    ensures
        names_ordered(sorted_by_name(items, name), name),
        sorted_by_name(items, name).to_multiset() == items.to_multiset(),
    decreases items.len(),
{
    broadcast use vstd::seq_lib::group_to_multiset_ensures;

    if items.len() == 0 {
        assert(items == Seq::<T>::empty());
    } else {
        sorting_orders(items.drop_last(), name);
        lemma_insert_named(sorted_by_name(items.drop_last(), name), items.last(), name);
        assert(items.drop_last().push(items.last()) == items);
    }
}

/// Sorting a sorted list changes nothing.
pub proof fn sorting_settles<T>(items: Seq<T>, name: spec_fn(T) -> Seq<char>)
    requires
        names_ordered(items, name),
    ensures
        sorted_by_name(items, name) == items,
    decreases items.len(),
{
    if items.len() > 0 {
        let front = items.drop_last();
        assert forall|i: int, j: int|
            0 <= i < j < front.len() implies !crate::text::comes_before(
            crate::text::lowercase(name(#[trigger] front[j])),
            crate::text::lowercase(name(#[trigger] front[i])),
        ) by {
            assert(front[i] == items[i] && front[j] == items[j]);
        }
        sorting_settles(front, name);
        if front.len() > 0 {
            assert(front.last() == items[items.len() - 2]);
            assert(items.last() == items[items.len() - 1]);
        }
        assert(front.push(items.last()) == items);
    } else {
        assert(items == Seq::<T>::empty());
    }
}

/// Where `insert_named` puts an item.
pub proof fn lemma_insert_named_at<T>(
    list: Seq<T>,
    x: T,
    name: spec_fn(T) -> Seq<char>,
    at: int,
)
    requires
        0 <= at <= list.len(),
        forall|i: int|
            at <= i < list.len() ==> crate::text::comes_before(
                crate::text::lowercase(name(x)),
                crate::text::lowercase(name(#[trigger] list[i])),
            ),
        at > 0 ==> !crate::text::comes_before(
            crate::text::lowercase(name(x)),
            crate::text::lowercase(name(list[at - 1])),
        ),
    ensures
        insert_named(list, x, name) == list.insert(at, x),
    decreases list.len(),
{
    if list.len() == 0 {
        assert(list.insert(at, x) == seq![x]);
    } else if at == list.len() {
        assert(list.insert(at, x) == list.push(x));
    } else {
        let front = list.drop_last();
        assert(list.last() == list[list.len() - 1]);
        assert forall|i: int| at <= i < front.len() implies crate::text::comes_before(
            crate::text::lowercase(name(x)),
            crate::text::lowercase(name(#[trigger] front[i])),
        ) by {
            assert(front[i] == list[i]);
        }
        lemma_insert_named_at(front, x, name, at);
        assert(front.insert(at, x).push(list.last()) == list.insert(at, x));
    }
}

/// Where an item with this name goes in a list of these names.
pub fn insertion_point(names: &Vec<String>, name: &str) -> (r: usize)
    ensures
        r <= names.len(),
        forall|i: int|
            r <= i < names.len() ==> crate::text::comes_before(
                crate::text::lowercase(name@),
                crate::text::lowercase(#[trigger] names@[i]@),
            ),
        r > 0 ==> !crate::text::comes_before(
            crate::text::lowercase(name@),
            crate::text::lowercase(names@[r - 1]@),
        ),
{
    let key = chars_of(to_lowercase(name).as_str());
    let mut n: usize = names.len();
    while n > 0 && precedes(
        key.as_slice(),
        chars_of(to_lowercase(names[n - 1].as_str()).as_str()).as_slice(),
    )
        invariant
            n <= names.len(),
            key@ == crate::text::lowercase(name@),
            forall|i: int|
                n <= i < names.len() ==> crate::text::comes_before(
                    crate::text::lowercase(name@),
                    crate::text::lowercase(#[trigger] names@[i]@),
                ),
        decreases n,
    {
        n = n - 1;
    }
    n
}

/// Items with the same name in lower case stay in their order.
pub proof fn sorting_keeps_equals_in_order<T>(
    items: Seq<T>,
    name: spec_fn(T) -> Seq<char>,
    key: Seq<char>,
)
    ensures
        ({
            let same = |x: T| crate::text::lowercase(name(x)) == key;
            sorted_by_name(items, name).filter(same) == items.filter(same)
        }),
    decreases items.len(),
{
    let same = |x: T| crate::text::lowercase(name(x)) == key;
    if items.len() > 0 {
        let front = items.drop_last();
        sorting_keeps_equals_in_order(front, name, key);
        lemma_insert_filtered(sorted_by_name(front, name), items.last(), name, key);
        lemma_filter_push(front, items.last(), same);
        assert(front.push(items.last()) =~= items);
    } else {
        assert(sorted_by_name(items, name) =~= items);
    }
}

/// Filtering a list and one more item.
proof fn lemma_filter_push<T>(list: Seq<T>, x: T, keep: spec_fn(T) -> bool)
    ensures
        list.push(x).filter(keep) == if keep(x) {
            list.filter(keep).push(x)
        } else {
            list.filter(keep)
        },
{
    reveal(Seq::filter);
    assert(list.push(x).drop_last() =~= list);
}

/// An item goes behind those with the same name.
proof fn lemma_insert_filtered<T>(
    list: Seq<T>,
    x: T,
    name: spec_fn(T) -> Seq<char>,
    key: Seq<char>,
)
    ensures
        ({
            let same = |x: T| crate::text::lowercase(name(x)) == key;
            insert_named(list, x, name).filter(same) == if same(x) {
                list.filter(same).push(x)
            } else {
                list.filter(same)
            }
        }),
    decreases list.len(),
{
    let same = |x: T| crate::text::lowercase(name(x)) == key;
    let kx = crate::text::lowercase(name(x));
    if list.len() == 0 {
        lemma_filter_push(list, x, same);
        assert(list.push(x) =~= seq![x]);
    } else {
        let last = list.last();
        let kl = crate::text::lowercase(name(last));
        let front = list.drop_last();
        if crate::text::comes_before(kx, kl) {
            crate::text::order_is_total(kx, kl);
            lemma_insert_filtered(front, x, name, key);
            lemma_filter_push(insert_named(front, x, name), last, same);
            lemma_filter_push(front, last, same);
            assert(front.push(last) =~= list);
        } else {
            lemma_filter_push(list, x, same);
        }
    }
}

} // verus!
