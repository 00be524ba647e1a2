//! Dictionary order on character sequences, and sequences kept sorted without repeats.

use vstd::prelude::*;
use crate::text::views;

verus! {

/// `a` and `b` agree on their first `k` characters.
pub open spec fn agree_before(a: Seq<char>, b: Seq<char>, k: int) -> bool {
    &&& 0 <= k <= a.len()
    &&& k <= b.len()
    &&& forall|j: int| 0 <= j < k ==> a[j] == b[j]
}

/// `a` comes before `b`, decided at position `k`: they agree before `k`, and there `a`
/// either ends while `b` goes on, or holds the character with the smaller code point.
pub open spec fn less_at(a: Seq<char>, b: Seq<char>, k: int) -> bool {
    &&& agree_before(a, b, k)
    &&& k < b.len()
    &&& (k == a.len() || (a[k] as int) < (b[k] as int))
}

/// `a` comes strictly before `b` in dictionary order by code points.
pub open spec fn lex_less(a: Seq<char>, b: Seq<char>) -> bool {
    exists|k: int| less_at(a, b, k)
}

/// Every item comes strictly before every later one: sorted, and nothing twice.
pub open spec fn strictly_sorted(items: Seq<Seq<char>>) -> bool {
    forall|i: int, j: int| 0 <= i < j < items.len() ==> lex_less(items[i], items[j])
}

/// No sequence comes before itself.
pub proof fn lemma_less_irreflexive(a: Seq<char>)
    ensures
        !lex_less(a, a),
{
}

/// The order is transitive.
pub proof fn lemma_less_transitive(a: Seq<char>, b: Seq<char>, c: Seq<char>)
    requires
        lex_less(a, b),
        lex_less(b, c),
    ensures
        lex_less(a, c),
{
    let k1 = choose|k: int| less_at(a, b, k);
    let k2 = choose|k: int| less_at(b, c, k);
    let k = if k1 <= k2 { k1 } else { k2 };
    assert(less_at(a, c, k));
}

/// Of two different sequences one comes before the other.
pub proof fn lemma_less_total(a: Seq<char>, b: Seq<char>)
    ensures
        a == b || lex_less(a, b) || lex_less(b, a),
    decreases a.len(),
{
    if a =~= b {
    } else {
        let k = first_difference(a, b, 0);
        lemma_first_difference(a, b, 0);
        if k == a.len() {
            assert(less_at(a, b, k));
        } else if k == b.len() {
            assert(less_at(b, a, k));
        } else if (a[k] as int) < (b[k] as int) {
            assert(less_at(a, b, k));
        } else {
            assert(less_at(b, a, k));
        }
    }
}

/// The first position at or after `from` where `a` and `b` differ or one of them ends.
pub open spec fn first_difference(a: Seq<char>, b: Seq<char>, from: int) -> int
    decreases a.len() - from,
{
    if from < 0 || from >= a.len() || from >= b.len() || a[from] != b[from] {
        from
    } else {
        first_difference(a, b, from + 1)
    }
}

proof fn lemma_first_difference(a: Seq<char>, b: Seq<char>, from: int)
    requires
        agree_before(a, b, from),
    ensures
        agree_before(a, b, first_difference(a, b, from)),
        from <= first_difference(a, b, from),
        ({
            let k = first_difference(a, b, from);
            k == a.len() || k == b.len() || a[k] != b[k]
        }),
    decreases a.len() - from,
{
    if from >= a.len() || from >= b.len() || a[from] != b[from] {
    } else {
        lemma_first_difference(a, b, from + 1);
    }
}

/// Whether `a` comes strictly before `b`.
pub fn less_than(a: &Vec<char>, b: &Vec<char>) -> (less: bool)
    ensures
        less == lex_less(a@, b@),
{
    let mut i: usize = 0;
    while i < a.len() && i < b.len()
        invariant
            agree_before(a@, b@, i as int),
        decreases a.len() - i,
    {
        let x: char = a[i];
        let y: char = b[i];
        if x != y {
            let less = x < y;
            proof {
                if less {
                    assert(less_at(a@, b@, i as int));
                }
            }
            return less;
        }
        i += 1;
    }
    proof {
        if a.len() < b.len() {
            assert(less_at(a@, b@, i as int));
        }
    }
    a.len() < b.len()
}

/// Where `item` belongs among the sorted `items`: behind all that come before it.
fn position_of(items: &Vec<Vec<char>>, item: &Vec<char>) -> (at: usize)
    requires
        strictly_sorted(views(items@)),
    ensures
        at <= items.len(),
        forall|j: int| 0 <= j < at ==> lex_less(#[trigger] views(items@)[j], item@),
        forall|j: int| at <= j < items.len() ==> !lex_less(#[trigger] views(items@)[j], item@),
{
    let ghost sorted = views(items@);
    let mut low: usize = 0;
    let mut high: usize = items.len();
    while low < high
        invariant
            low <= high <= items.len(),
            sorted == views(items@),
            strictly_sorted(sorted),
            forall|j: int| 0 <= j < low ==> lex_less(#[trigger] sorted[j], item@),
            forall|j: int| high <= j < items.len() ==> !lex_less(#[trigger] sorted[j], item@),
        decreases high - low,
    {
        let middle = low + (high - low) / 2;
        if less_than(&items[middle], item) {
            assert forall|j: int| 0 <= j < middle + 1 implies lex_less(
                #[trigger] sorted[j],
                item@,
            ) by {
                if j < middle {
                    lemma_less_transitive(sorted[j], sorted[middle as int], item@);
                }
            }
            low = middle + 1;
        } else {
            assert forall|j: int| middle <= j < items.len() implies !lex_less(
                #[trigger] sorted[j],
                item@,
            ) by {
                if middle < j && lex_less(sorted[j], item@) {
                    lemma_less_transitive(sorted[middle as int], sorted[j], item@);
                }
            }
            high = middle;
        }
    }
    low
}

/// An item put at its place into a sorted sequence leaves it sorted, and adds the item to
/// what the sequence holds and nothing else.
pub proof fn lemma_insert_at_place(before: Seq<Seq<char>>, at: int, item: Seq<char>)
    requires
        strictly_sorted(before),
        0 <= at <= before.len(),
        forall|j: int| 0 <= j < at ==> lex_less(#[trigger] before[j], item),
        at < before.len() ==> lex_less(item, before[at]),
    ensures
        strictly_sorted(before.insert(at, item)),
        before.insert(at, item).to_set() == before.to_set().insert(item),
{
    let after = before.insert(at, item);
    assert forall|i: int, j: int| 0 <= i < j < after.len() implies lex_less(after[i], after[j]) by {
        if j == at {
            assert(after[i] == before[i]);
        } else if i == at {
            assert(after[j] == before[j - 1]);
            if j - 1 > at {
                lemma_less_transitive(item, before[at], before[j - 1]);
            }
        } else {
            let oi = if i < at { i } else { i - 1 };
            let oj = if j < at { j } else { j - 1 };
            assert(after[i] == before[oi]);
            assert(after[j] == before[oj]);
        }
    }
    assert forall|h: Seq<char>| after.to_set().contains(h) <==> before.to_set().insert(
        item,
    ).contains(h) by {
        if after.contains(h) {
            let i = choose|i: int| 0 <= i < after.len() && after[i] == h;
            if i < at {
                assert(before[i] == h);
            } else if i > at {
                assert(before[i - 1] == h);
            }
        }
        if before.contains(h) {
            let i = choose|i: int| 0 <= i < before.len() && before[i] == h;
            if i < at {
                assert(after[i] == h);
            } else {
                assert(after[i + 1] == h);
            }
        }
        if h == item {
            assert(after[at] == h);
        }
    }
    assert(after.to_set() =~= before.to_set().insert(item));
}

/// Character sequences kept in dictionary order, each once.
pub struct Sorted {
    items: Vec<Vec<char>>,
}

impl View for Sorted {
    type V = Seq<Seq<char>>;

    /// What is held, in order.
    closed spec fn view(&self) -> Seq<Seq<char>> {
        views(self.items@)
    }
}

impl Sorted {
    #[verifier::type_invariant]
    spec fn in_order(self) -> bool {
        strictly_sorted(views(self.items@))
    }

    /// Holds nothing.
    pub fn new() -> (sorted: Self)
        ensures
            sorted@ == Seq::<Seq<char>>::empty(),
    {
        let sorted = Sorted { items: Vec::new() };
        assert(sorted@ =~= Seq::<Seq<char>>::empty());
        sorted
    }

    /// Puts `item` at its place, unless it is held already.
    pub fn insert(&mut self, item: Vec<char>)
        ensures
            final(self)@.to_set() == old(self)@.to_set().insert(item@),
            strictly_sorted(final(self)@),
    {
        proof {
            use_type_invariant(&*self);
        }
        let ghost before = views(self.items@);
        let at = position_of(&self.items, &item);
        if at < self.items.len() && !less_than(&item, &self.items[at]) {
            proof {
                lemma_less_total(item@, before[at as int]);
                assert(before.to_set().contains(item@));
                assert(before.to_set() =~= before.to_set().insert(item@));
            }
        } else {
            proof {
                lemma_insert_at_place(before, at as int, item@);
                assert(views(self.items@.insert(at as int, item)) =~= before.insert(
                    at as int,
                    item@,
                ));
            }
            let mut items: Vec<Vec<char>> = Vec::new();
            core::mem::swap(&mut self.items, &mut items);
            items.insert(at, item);
            self.items = items;
        }
    }

    /// What is held, in order.
    pub fn items(&self) -> (items: &Vec<Vec<char>>)
        ensures
            views(items@) == self@,
            strictly_sorted(self@),
    {
        proof {
            use_type_invariant(self);
        }
        &self.items
    }
}

/// A sorted sequence without repeats is fixed by the set of its items.
pub proof fn lemma_sorted_unique(a: Seq<Seq<char>>, b: Seq<Seq<char>>)
    requires
        strictly_sorted(a),
        strictly_sorted(b),
        a.to_set() == b.to_set(),
    ensures
        a == b,
    decreases a.len(),
{
    if a.len() == 0 {
        if b.len() > 0 {
            assert(b.to_set().contains(b[0]));
            assert(a.to_set().contains(b[0]));
        }
        assert(a =~= b);
    } else if b.len() == 0 {
        assert(a.to_set().contains(a[0]));
        assert(b.to_set().contains(a[0]));
    } else {
        // The greatest item of each is its last, so the two last items are the same.
        let x = a.last();
        let y = b.last();
        assert(a.to_set().contains(x));
        assert(b.contains(x));
        assert(b.to_set().contains(y));
        assert(a.contains(y));
        let i = choose|i: int| 0 <= i < b.len() && b[i] == x;
        let j = choose|j: int| 0 <= j < a.len() && a[j] == y;
        if x != y {
            assert(i < b.len() - 1);
            assert(lex_less(x, y));
            assert(j < a.len() - 1);
            assert(lex_less(y, x));
            lemma_less_transitive(x, y, x);
            lemma_less_irreflexive(x);
        }
        let a0 = a.drop_last();
        let b0 = b.drop_last();
        assert forall|h: Seq<char>| a0.to_set().contains(h) <==> b0.to_set().contains(h) by {
            if a0.contains(h) {
                let k = choose|k: int| 0 <= k < a0.len() && a0[k] == h;
                assert(a[k] == h);
                assert(lex_less(h, x));
                assert(a.to_set().contains(h));
                assert(b.contains(h));
                let m = choose|m: int| 0 <= m < b.len() && b[m] == h;
                if m == b.len() - 1 {
                    lemma_less_irreflexive(x);
                }
                assert(b0[m] == h);
            }
            if b0.contains(h) {
                let k = choose|k: int| 0 <= k < b0.len() && b0[k] == h;
                assert(b[k] == h);
                assert(lex_less(h, y));
                assert(b.to_set().contains(h));
                assert(a.contains(h));
                let m = choose|m: int| 0 <= m < a.len() && a[m] == h;
                if m == a.len() - 1 {
                    lemma_less_irreflexive(y);
                }
                assert(a0[m] == h);
            }
        }
        assert(a0.to_set() =~= b0.to_set());
        lemma_sorted_unique(a0, b0);
        assert(a =~= a0.push(x));
        assert(b =~= b0.push(y));
    }
}

/// In a sorted sequence without repeats no item stands at two places.
pub proof fn lemma_sorted_no_repeats(items: Seq<Seq<char>>)
    requires
        strictly_sorted(items),
    ensures
        items.no_duplicates(),
{
    assert forall|i: int, j: int| 0 <= i < items.len() && 0 <= j < items.len() && i != j implies items[i]
        != items[j] by {
        lemma_less_irreflexive(items[i]);
        if i < j {
            assert(lex_less(items[i], items[j]));
        } else {
            assert(lex_less(items[j], items[i]));
        }
    }
}

} // verus!
