//! Sets kept as ascending vectors.
//!
//! A definition keeps its versions and its layouts as sets. Each is held in
//! a vector whose items ascend strictly, so nothing occurs twice and the
//! order in which items were added leaves no trace.
use vstd::prelude::*;

verus! {

/// Items that are ordered by a number.
pub trait Ranked: Copy {
    /// The number by which the item is ordered. Distinct items have distinct
    /// ranks.
    spec fn rank(&self) -> int;

    proof fn lemma_rank_injective(a: Self, b: Self)
        requires
            a.rank() == b.rank(),
        ensures
            a == b,
    ;

    fn ranks_below(&self, other: &Self) -> (r: bool)
        ensures
            r == (self.rank() < other.rank()),
    ;
}

/// The items of `s` ascend strictly.
pub open spec fn ascending<T: Ranked>(s: Seq<T>) -> bool {
    forall|i: int, j: int| 0 <= i < j < s.len() ==> s[i].rank() < s[j].rank()
}

/// The first position at or after `from` whose item does not rank below
/// `x`, or the length of `s`.
pub open spec fn slot_from<T: Ranked>(s: Seq<T>, x: T, from: int) -> int
    decreases s.len() - from,
{
    if from < 0 || from >= s.len() {
        s.len() as int
    } else if s[from].rank() >= x.rank() {
        from
    } else {
        slot_from(s, x, from + 1)
    }
}

/// Where `x` belongs in `s`.
pub open spec fn slot<T: Ranked>(s: Seq<T>, x: T) -> int {
    slot_from(s, x, 0)
}

/// `s` with `x` added: unchanged if `x` is in it, else with `x` put where
/// it belongs.
pub open spec fn with_item<T: Ranked>(s: Seq<T>, x: T) -> Seq<T> {
    let i = slot(s, x);
    if i < s.len() && s[i].rank() == x.rank() {
        s
    } else {
        s.insert(i, x)
    }
}

/// `s` with every item of `items` added, first to last.
pub open spec fn with_items<T: Ranked>(s: Seq<T>, items: Seq<T>) -> Seq<T>
    decreases items.len(),
{
    if items.len() == 0 {
        s
    } else {
        with_item(with_items(s, items.drop_last()), items.last())
    }
}

pub proof fn lemma_slot_from<T: Ranked>(s: Seq<T>, x: T, from: int)
    requires
        0 <= from <= s.len(),
    ensures
        from <= slot_from(s, x, from) <= s.len(),
        forall|i: int| from <= i < slot_from(s, x, from) ==> s[i].rank() < x.rank(),
        slot_from(s, x, from) < s.len() ==> s[slot_from(s, x, from)].rank() >= x.rank(),
    decreases s.len() - from,
{
    if from < s.len() && s[from].rank() < x.rank() {
        lemma_slot_from(s, x, from + 1);
    }
}

/// Adding an item to an ascending sequence keeps it ascending, and the
/// result holds `x` and what `s` held, nothing else.
pub proof fn lemma_with_item<T: Ranked>(s: Seq<T>, x: T)
    requires
        ascending(s),
    ensures
        ascending(with_item(s, x)),
        forall|y: T| with_item(s, x).contains(y) <==> (s.contains(y) || y == x),
{
    lemma_slot_from(s, x, 0);
    let i = slot(s, x);
    let r = with_item(s, x);
    if i < s.len() && s[i].rank() == x.rank() {
        T::lemma_rank_injective(s[i], x);
        assert(s.contains(x));
    } else {
        assert forall|a: int, b: int| 0 <= a < b < r.len() implies r[a].rank() < r[b].rank() by {
            if a < i && b > i {
                assert(r[a] == s[a] && r[b] == s[b - 1]);
            }
        }
        assert forall|y: T| r.contains(y) <==> (s.contains(y) || y == x) by {
            if r.contains(y) {
                let k = choose|k: int| 0 <= k < r.len() && r[k] == y;
                if k < i {
                    assert(s[k] == y);
                } else if k > i {
                    assert(s[k - 1] == y);
                }
            }
            if s.contains(y) {
                let k = choose|k: int| 0 <= k < s.len() && s[k] == y;
                if k < i {
                    assert(r[k] == y);
                } else {
                    assert(r[k + 1] == y);
                }
            }
            if y == x {
                assert(r[i] == x);
            }
        }
    }
}

/// An item that ranks above all of `s` is added at its end.
pub proof fn lemma_with_item_last<T: Ranked>(s: Seq<T>, x: T)
    requires
        forall|i: int| 0 <= i < s.len() ==> s[i].rank() < x.rank(),
    ensures
        with_item(s, x) == s.push(x),
{
    lemma_slot_from(s, x, 0);
    assert(s.insert(s.len() as int, x) =~= s.push(x));
}

pub proof fn lemma_with_items<T: Ranked>(s: Seq<T>, items: Seq<T>)
    requires
        ascending(s),
    ensures
        ascending(with_items(s, items)),
        forall|y: T| with_items(s, items).contains(y) <==> (s.contains(y) || items.contains(y)),
    decreases items.len(),
{
    if items.len() > 0 {
        let head = items.drop_last();
        lemma_with_items(s, head);
        lemma_with_item(with_items(s, head), items.last());
        assert forall|y: T| items.contains(y) <==> (head.contains(y) || y == items.last()) by {
            if items.contains(y) {
                let k = choose|k: int| 0 <= k < items.len() && items[k] == y;
                if k < head.len() {
                    assert(head[k] == y);
                }
            }
            if head.contains(y) {
                let k = choose|k: int| 0 <= k < head.len() && head[k] == y;
                assert(items[k] == y);
            }
            if y == items.last() {
                assert(items[items.len() - 1] == y);
            }
        }
    }
}

/// Adding the items of an ascending sequence to the empty one gives that
/// sequence back.
pub proof fn lemma_with_items_ascending<T: Ranked>(items: Seq<T>)
    requires
        ascending(items),
    ensures
        with_items(Seq::empty(), items) == items,
    decreases items.len(),
{
    if items.len() > 0 {
        let head = items.drop_last();
        lemma_with_items_ascending(head);
        lemma_with_item_last(head, items.last());
        assert(head.push(items.last()) =~= items);
    }
}

/// Adds `x` to the ascending vector `v`.
pub fn add_item<T: Ranked>(v: &mut Vec<T>, x: T)
    ensures
        final(v)@ == with_item(old(v)@, x),
{
    let mut i: usize = 0;
    while i < v.len() && v[i].ranks_below(&x)
        invariant
            i <= v@.len(),
            v@ == old(v)@,
            forall|j: int| 0 <= j < i ==> v@[j].rank() < x.rank(),
            slot(v@, x) == slot_from(v@, x, i as int),
        decreases v@.len() - i,
    {
        i += 1;
    }
    proof {
        lemma_slot_from(v@, x, i as int);
    }
    if i < v.len() && !x.ranks_below(&v[i]) {
        return ;
    }
    v.insert(i, x);
}

/// The ascending vector that holds the items of `items`, each once.
pub fn collect_items<T: Ranked>(items: &Vec<T>) -> (r: Vec<T>)
    ensures
        r@ == with_items(Seq::empty(), items@),
{
    let mut r: Vec<T> = Vec::new();
    let mut i: usize = 0;
    while i < items.len()
        invariant
            i <= items@.len(),
            r@ == with_items(Seq::empty(), items@.subrange(0, i as int)),
        decreases items@.len() - i,
    {
        add_item(&mut r, items[i]);
        proof {
            let next = items@.subrange(0, i + 1);
            assert(next.drop_last() =~= items@.subrange(0, i as int));
        }
        i += 1;
    }
    assert(items@.subrange(0, items@.len() as int) =~= items@);
    r
}

} // verus!
