//! A bounded, recency-ordered tracker of open keys.
//!
//! The tracker keeps every opened key in an *ordered sequence* (the order in
//! which tabs are laid out), remembers in which order the keys were last
//! accessed, and reports as *visible* the most recently accessed keys, laid
//! out in the order of the sequence.
//!
//! Two keys are the same key when `==` says so. All contracts are stated over
//! `eq_spec`, the meaning of `==` in contracts, and ask that `==` on the key
//! type is lawful ([`lawful_eq`]).

use vstd::prelude::*;
use vstd::std_specs::cmp::PartialEqSpec;

verus! {

/// `==` on `T` does what `eq_spec` says, and `eq_spec` is symmetric and
/// transitive.
pub open spec fn lawful_eq<T: PartialEq>() -> bool {
    &&& T::obeys_eq_spec()
    &&& forall|x: T, y: T| #[trigger] x.eq_spec(&y) ==> y.eq_spec(&x)
    &&& forall|x: T, y: T, z: T|
        #[trigger] x.eq_spec(&y) && #[trigger] y.eq_spec(&z) ==> x.eq_spec(&z)
}

/// No key occurs at two positions of `tabs`.
pub open spec fn distinct_keys<T: PartialEq>(tabs: Seq<T>) -> bool {
    forall|i: int, j: int|
        0 <= i < tabs.len() && 0 <= j < tabs.len() && i != j ==> !(#[trigger] tabs[i].eq_spec(
            &tabs[j],
        ))
}

/// `key` is one of `tabs`.
pub open spec fn tracks<T: PartialEq>(tabs: Seq<T>, key: T) -> bool {
    exists|i: int| 0 <= i < tabs.len() && (#[trigger] tabs[i]).eq_spec(&key)
}

/// The position of `key` in `tabs`; meaningful when `tracks(tabs, key)`.
pub open spec fn slot_of<T: PartialEq>(tabs: Seq<T>, key: T) -> int {
    choose|i: int| 0 <= i < tabs.len() && (#[trigger] tabs[i]).eq_spec(&key)
}

/// `recency` lists every position below `len` exactly once.
pub open spec fn is_recency_order(recency: Seq<int>, len: nat) -> bool {
    &&& recency.len() == len
    &&& forall|k: int| 0 <= k < recency.len() ==> 0 <= #[trigger] recency[k] < len
    &&& forall|j: int, k: int|
        0 <= j < k < recency.len() ==> #[trigger] recency[j] != #[trigger] recency[k]
    &&& forall|p: int| 0 <= p < len ==> #[trigger] recency.contains(p)
}

/// The position accessed last, if any position is tracked.
pub open spec fn most_recent(recency: Seq<int>) -> Option<int> {
    if recency.len() > 0 {
        Some(recency[0])
    } else {
        None
    }
}

/// The recency order after position `i` was accessed: `i` moves to the front,
/// the others keep their order.
pub open spec fn promote(recency: Seq<int>, i: int) -> Seq<int> {
    recency.remove(recency.index_of(i)).insert(0, i)
}

/// Where a position lands when a new key is put at position `p`.
pub open spec fn after_insert(x: int, p: int) -> int {
    if x >= p {
        x + 1
    } else {
        x
    }
}

/// The recency order after a new key was put at position `p` and accessed.
pub open spec fn open_slot(recency: Seq<int>, p: int) -> Seq<int> {
    recency.map_values(|x: int| after_insert(x, p)).insert(0, p)
}

/// Where a position lands when the key at position `i` is taken out.
pub open spec fn after_remove(x: int, i: int) -> int {
    if x > i {
        x - 1
    } else {
        x
    }
}

/// The recency order after the key at position `i` was taken out.
pub open spec fn close_slot(recency: Seq<int>, i: int) -> Seq<int> {
    recency.remove(recency.index_of(i)).map_values(|x: int| after_remove(x, i))
}

/// Where a position lands when the key at `from` is taken out and put back
/// at `to`.
pub open spec fn after_move(x: int, from: int, to: int) -> int {
    if x == from {
        to
    } else if from < x <= to {
        x - 1
    } else if to <= x < from {
        x + 1
    } else {
        x
    }
}

/// The recency order after the key at `from` was moved to `to`.
pub open spec fn relocate(recency: Seq<int>, from: int, to: int) -> Seq<int> {
    recency.map_values(|x: int| after_move(x, from, to))
}

/// The position at which a new key is put: right after the current one, or
/// at the front when there is none.
pub open spec fn insert_slot(current: Option<int>) -> int {
    match current {
        Some(c) => c + 1,
        None => 0,
    }
}

/// The positions below `len` that are among the first `n` entries of
/// `recency`, in increasing order.
pub open spec fn window_positions(recency: Seq<int>, n: int, len: int) -> Seq<int> {
    position_range(len as nat).filter(|p: int| recency.take(n).contains(p))
}

/// The positions below `len`, in increasing order.
pub open spec fn position_range(len: nat) -> Seq<int> {
    Seq::new(len, |p: int| p)
}

/// The smaller of two numbers.
pub open spec fn at_most(a: int, b: int) -> int {
    if a <= b {
        a
    } else {
        b
    }
}

/// Where the current key lands when it is moved in front of `anchor` (to the
/// end when there is no anchor); `None` when there is no current key or the
/// anchor is not tracked.
pub open spec fn move_target<T: PartialEq>(
    tabs: Seq<T>,
    current: Option<int>,
    anchor: Option<T>,
) -> Option<int> {
    match current {
        None => None,
        Some(from) => match anchor {
            None => Some(tabs.len() - 1),
            Some(a) => if tracks(tabs, a) {
                let j = slot_of(tabs, a);
                Some(
                    if from < j {
                        j - 1
                    } else {
                        j
                    },
                )
            } else {
                None
            },
        },
    }
}

/// The positions held in a list of machine integers.
pub open spec fn positions(order: Seq<usize>) -> Seq<int> {
    order.map_values(|x: usize| x as int)
}

/// In a recency order a position is found at its own rank.
proof fn lemma_index_of(recency: Seq<int>, len: nat, k: int)
    requires
        is_recency_order(recency, len),
        0 <= k < recency.len(),
    ensures
        recency.index_of(recency[k]) == k,
{
    let i = recency.index_of(recency[k]);
    assert(0 <= i < recency.len() && recency[i] == recency[k]);
    if i < k {
        assert(recency[i] != recency[k]);
    }
    if k < i {
        assert(recency[k] != recency[i]);
    }
}

/// Accessing a position leaves a recency order a recency order.
proof fn lemma_promote(recency: Seq<int>, len: nat, k: int)
    requires
        is_recency_order(recency, len),
        0 <= k < recency.len(),
    ensures
        is_recency_order(promote(recency, recency[k]), len),
        promote(recency, recency[k]) == recency.remove(k).insert(0, recency[k]),
{
    lemma_index_of(recency, len, k);
    let i = recency[k];
    let out = recency.remove(k).insert(0, i);
    assert forall|a: int, b: int| 0 <= a < b < out.len() implies out[a] != out[b] by {
        let oa = if a == 0 {
            k
        } else if a - 1 < k {
            a - 1
        } else {
            a
        };
        let ob = if b - 1 < k {
            b - 1
        } else {
            b
        };
        assert(out[a] == recency[oa]);
        assert(out[b] == recency[ob]);
        if oa < ob {
            assert(recency[oa] != recency[ob]);
        } else {
            assert(ob < oa);
            assert(recency[ob] != recency[oa]);
        }
    }
    assert forall|p: int| 0 <= p < len implies #[trigger] out.contains(p) by {
        assert(recency.contains(p));
        let j = choose|j: int| 0 <= j < recency.len() && recency[j] == p;
        if j == k {
            assert(out[0] == p);
        } else if j < k {
            assert(out[j + 1] == p);
        } else {
            assert(out[j] == p);
        }
    }
}

/// Putting in a new key leaves a recency order a recency order, over one
/// position more.
proof fn lemma_open_slot(recency: Seq<int>, len: nat, p: int)
    requires
        is_recency_order(recency, len),
        0 <= p <= len,
    ensures
        is_recency_order(open_slot(recency, p), len + 1),
{
    let out = open_slot(recency, p);
    assert forall|a: int, b: int| 0 <= a < b < out.len() implies out[a] != out[b] by {
        assert(out[b] == after_insert(recency[b - 1], p));
        if a > 0 {
            assert(out[a] == after_insert(recency[a - 1], p));
            assert(recency[a - 1] != recency[b - 1]);
        }
    }
    assert forall|q: int| 0 <= q < len + 1 implies #[trigger] out.contains(q) by {
        if q == p {
            assert(out[0] == q);
        } else {
            let o = if q > p {
                q - 1
            } else {
                q
            };
            assert(recency.contains(o));
            let j = choose|j: int| 0 <= j < recency.len() && recency[j] == o;
            assert(out[j + 1] == q);
        }
    }
}

/// Taking out a key leaves a recency order a recency order, over one
/// position less.
proof fn lemma_close_slot(recency: Seq<int>, len: nat, k: int)
    requires
        is_recency_order(recency, len),
        0 <= k < recency.len(),
    ensures
        is_recency_order(close_slot(recency, recency[k]), (len - 1) as nat),
        close_slot(recency, recency[k]) == recency.remove(k).map_values(
            |x: int| after_remove(x, recency[k]),
        ),
{
    lemma_index_of(recency, len, k);
    let i = recency[k];
    let out = close_slot(recency, i);
    assert forall|a: int| 0 <= a < out.len() implies 0 <= #[trigger] out[a] < len - 1 by {
        let oa = if a < k {
            a
        } else {
            a + 1
        };
        assert(out[a] == after_remove(recency[oa], i));
        if oa < k {
            assert(recency[oa] != recency[k]);
        } else {
            assert(recency[k] != recency[oa]);
        }
    }
    assert forall|a: int, b: int| 0 <= a < b < out.len() implies out[a] != out[b] by {
        let oa = if a < k {
            a
        } else {
            a + 1
        };
        let ob = if b < k {
            b
        } else {
            b + 1
        };
        assert(out[a] == after_remove(recency[oa], i));
        assert(out[b] == after_remove(recency[ob], i));
        assert(recency[oa] != recency[ob]);
        if oa < k {
            assert(recency[oa] != recency[k]);
        } else {
            assert(recency[k] != recency[oa]);
        }
        if ob < k {
            assert(recency[ob] != recency[k]);
        } else {
            assert(recency[k] != recency[ob]);
        }
    }
    assert forall|q: int| 0 <= q < len - 1 implies #[trigger] out.contains(q) by {
        let o = if q >= i {
            q + 1
        } else {
            q
        };
        assert(recency.contains(o));
        let j = choose|j: int| 0 <= j < recency.len() && recency[j] == o;
        if j < k {
            assert(out[j] == q);
        } else {
            assert(j != k);
            assert(out[j - 1] == q);
        }
    }
}

/// Moving a key leaves a recency order a recency order.
proof fn lemma_relocate(recency: Seq<int>, len: nat, from: int, to: int)
    requires
        is_recency_order(recency, len),
        0 <= from < len,
        0 <= to < len,
    ensures
        is_recency_order(relocate(recency, from, to), len),
{
    let out = relocate(recency, from, to);
    assert forall|a: int, b: int| 0 <= a < b < out.len() implies out[a] != out[b] by {
        assert(out[a] == after_move(recency[a], from, to));
        assert(out[b] == after_move(recency[b], from, to));
        assert(recency[a] != recency[b]);
    }
    assert forall|q: int| 0 <= q < len implies #[trigger] out.contains(q) by {
        let o = if q == to {
            from
        } else if from <= q < to {
            q + 1
        } else if to < q <= from {
            q - 1
        } else {
            q
        };
        assert(recency.contains(o));
        let j = choose|j: int| 0 <= j < recency.len() && recency[j] == o;
        assert(out[j] == q);
    }
}

/// Adding `v` to the accepted values lengthens the filtered sequence by one
/// when `v` occurs once in `s`.
proof fn lemma_filter_gains_one(
    s: Seq<int>,
    keep: spec_fn(int) -> bool,
    more: spec_fn(int) -> bool,
    v: int,
)
    requires
        forall|x: int| #[trigger] more(x) == (keep(x) || x == v),
        !keep(v),
        forall|a: int, b: int| 0 <= a < b < s.len() ==> s[a] != s[b],
    ensures
        s.filter(more).len() == s.filter(keep).len() + (if s.contains(v) {
            1int
        } else {
            0int
        }),
    decreases s.len(),
{
    reveal_with_fuel(Seq::filter, 2);
    if s.len() > 0 {
        let front = s.drop_last();
        let last = s.last();
        lemma_filter_gains_one(front, keep, more, v);
        assert(more(last) == (keep(last) || last == v));
        if front.contains(v) {
            let j = choose|j: int| 0 <= j < front.len() && front[j] == v;
            assert(s[j] == v);
            assert(s[j] != s[s.len() - 1]);
            assert(s.contains(v));
        } else if last == v {
            assert(s[s.len() - 1] == v);
            assert(s.contains(v));
        } else {
            if s.contains(v) {
                let j = choose|j: int| 0 <= j < s.len() && s[j] == v;
                assert(front[j] == v);
            }
        }
    }
}

/// The window over the first `n` entries of a recency order holds `n`
/// positions.
proof fn lemma_window_len(recency: Seq<int>, len: nat, n: int)
    requires
        is_recency_order(recency, len),
        0 <= n <= len,
    ensures
        window_positions(recency, n, len as int).len() == n,
    decreases n,
{
    let range = position_range(len);
    if n == 0 {
        let none = |p: int| recency.take(0).contains(p);
        assert forall|i: int| 0 <= i < range.len() implies !none(#[trigger] range[i]) by {}
        range.lemma_all_neg_filter_empty(none);
    } else {
        lemma_window_len(recency, len, n - 1);
        let shorter = recency.take(n - 1);
        let longer = recency.take(n);
        let keep = |p: int| shorter.contains(p);
        let more = |p: int| longer.contains(p);
        let v = recency[n - 1];
        assert forall|x: int| #[trigger] more(x) == (keep(x) || x == v) by {
            if keep(x) {
                let j = choose|j: int| 0 <= j < shorter.len() && shorter[j] == x;
                assert(longer[j] == x);
            }
            if x == v {
                assert(longer[n - 1] == x);
            }
            if more(x) {
                let j = choose|j: int| 0 <= j < longer.len() && longer[j] == x;
                if j < n - 1 {
                    assert(shorter[j] == x);
                }
            }
        }
        if keep(v) {
            let j = choose|j: int| 0 <= j < shorter.len() && shorter[j] == v;
            assert(recency[j] != recency[n - 1]);
        }
        assert(range[v] == v);
        assert(range.contains(v));
        lemma_filter_gains_one(range, keep, more, v);
    }
}

/// A filtered range of positions is strictly increasing.
proof fn lemma_filtered_range_increases(len: nat, keep: spec_fn(int) -> bool)
    ensures
        forall|a: int|
            0 <= a < position_range(len).filter(keep).len() ==> 0 <= (#[trigger] position_range(
                len,
            ).filter(keep)[a]) < len,
        forall|a: int, b: int|
            0 <= a < b < position_range(len).filter(keep).len() ==> (#[trigger] position_range(
                len,
            ).filter(keep)[a]) < (#[trigger] position_range(len).filter(keep)[b]),
    decreases len,
{
    reveal_with_fuel(Seq::filter, 2);
    let range = position_range(len);
    if len > 0 {
        let shorter = position_range((len - 1) as nat);
        assert(range.drop_last() =~= shorter);
        assert(range.last() == len - 1);
        lemma_filtered_range_increases((len - 1) as nat, keep);
        let sub = shorter.filter(keep);
        let all = range.filter(keep);
        assert(all == if keep(range.last()) {
            sub.push(range.last())
        } else {
            sub
        });
        assert forall|a: int| 0 <= a < all.len() implies 0 <= #[trigger] all[a] < len by {
            if a < sub.len() {
                assert(all[a] == sub[a]);
            }
        }
        assert forall|a: int, b: int| 0 <= a < b < all.len() implies #[trigger] all[a]
            < #[trigger] all[b] by {
            assert(all[a] == sub[a]);
            if b < sub.len() {
                assert(all[b] == sub[b]);
            }
        }
    }
}

/// A bounded, recency-ordered tracker of open keys.
pub struct TabManager<T: Eq + std::hash::Hash + Clone> {
    all_tabs: Vec<T>,
    current_tab: Option<usize>,
    access_order: Vec<usize>,
    max_visible: usize,
}

impl<T: Eq + std::hash::Hash + Clone> TabManager<T> {
    /// The tracked keys, in layout order.
    pub closed spec fn tabs(&self) -> Seq<T> {
        self.all_tabs@
    }

    /// The positions of the tracked keys, most recently accessed first.
    pub closed spec fn recency(&self) -> Seq<int> {
        positions(self.access_order@)
    }

    /// The position of the current key.
    pub closed spec fn current(&self) -> Option<int> {
        match self.current_tab {
            Some(c) => Some(c as int),
            None => None,
        }
    }

    /// The largest number of keys reported as visible.
    pub closed spec fn window(&self) -> nat {
        self.max_visible as nat
    }

    /// The tracker's invariant: keys are distinct, the recency order lists
    /// every position once, and the current key is the one accessed last.
    pub open spec fn wf(&self) -> bool {
        &&& lawful_eq::<T>()
        &&& distinct_keys(self.tabs())
        &&& is_recency_order(self.recency(), self.tabs().len())
        &&& self.current() == most_recent(self.recency())
    }

    /// The positions of the visible keys, in layout order.
    pub open spec fn visible_positions(&self) -> Seq<int> {
        window_positions(
            self.recency(),
            at_most(self.window() as int, self.tabs().len() as int),
            self.tabs().len() as int,
        )
    }

    /// The visible keys are as many as the window allows, as far as there
    /// are keys, and they stand in layout order.
    pub proof fn lemma_window(&self)
        requires
            self.wf(),
        ensures
            self.visible_positions().len() == at_most(
                self.window() as int,
                self.tabs().len() as int,
            ),
            forall|k: int|
                0 <= k < self.visible_positions().len() ==> 0 <= (
                #[trigger] self.visible_positions()[k]) < self.tabs().len(),
            forall|a: int, b: int|
                0 <= a < b < self.visible_positions().len() ==> (
                #[trigger] self.visible_positions()[a]) < (#[trigger] self.visible_positions()[b]),
    {
        let len = self.tabs().len();
        let n = at_most(self.window() as int, len as int);
        let recent = self.recency().take(n);
        lemma_window_len(self.recency(), len, n);
        lemma_filtered_range_increases(len, |p: int| recent.contains(p));
    }

    /// The current key is visible whenever the window is not empty.
    pub proof fn lemma_current_is_visible(&self)
        requires
            self.wf(),
            self.window() > 0,
            self.current() is Some,
        ensures
            self.visible_positions().contains(self.current().unwrap()),
    {
        let len = self.tabs().len();
        let n = at_most(self.window() as int, len as int);
        let recent = self.recency().take(n);
        let keep = |p: int| recent.contains(p);
        let range = position_range(len);
        let c = self.current().unwrap();
        assert(recent[0] == c);
        assert(0 <= self.recency()[0] < len);
        assert(range[c] == c);
        assert(keep(range[c]));
        range.lemma_filter_contains(keep, c);
    }

    /// An empty tracker that reports at most `max_visible` keys.
    pub fn new(max_visible: usize) -> (r: Self)
        requires
            lawful_eq::<T>(),
        ensures
            r.wf(),
            r.tabs() == Seq::<T>::empty(),
            r.recency() == Seq::<int>::empty(),
            r.current() == None::<int>,
            r.window() == max_visible,
    {
        let r = TabManager {
            all_tabs: Vec::new(),
            current_tab: None,
            access_order: Vec::new(),
            max_visible,
        };
        assert(r.recency() =~= Seq::<int>::empty());
        r
    }

    /// The position of `tab` among the tracked keys.
    fn position_of(&self, tab: &T) -> (r: Option<usize>)
        requires
            self.wf(),
        ensures
            match r {
                Some(i) => tracks(self.tabs(), *tab) && i == slot_of(self.tabs(), *tab),
                None => !tracks(self.tabs(), *tab),
            },
    {
        let mut i: usize = 0;
        while i < self.all_tabs.len()
            invariant
                self.wf(),
                i <= self.all_tabs.len(),
                forall|j: int| 0 <= j < i ==> !(#[trigger] self.all_tabs@[j]).eq_spec(tab),
            decreases self.all_tabs.len() - i,
        {
            if self.all_tabs[i] == *tab {
                proof {
                    let s = slot_of(self.tabs(), *tab);
                    assert(self.tabs()[i as int].eq_spec(tab));
                    assert(self.tabs()[s].eq_spec(tab));
                    assert(tab.eq_spec(&self.tabs()[s]));
                    assert(self.tabs()[i as int].eq_spec(&self.tabs()[s]));
                }
                return Some(i);
            }
            i += 1;
        }
        None
    }

    /// Opens `tab`, or makes it current if it is open already.
    ///
    /// A key that is already tracked keeps its position and becomes the most
    /// recently accessed one. A new key is put right after the current key
    /// (at the front when there is none) and becomes current.
    pub fn add_or_activate(&mut self, tab: T)
        requires
            old(self).wf(),
        ensures
            final(self).wf(),
            final(self).window() == old(self).window(),
            tracks(old(self).tabs(), tab) ==> {
                let i = slot_of(old(self).tabs(), tab);
                &&& final(self).tabs() == old(self).tabs()
                &&& final(self).recency() == promote(old(self).recency(), i)
                &&& final(self).current() == Some(i)
            },
            !tracks(old(self).tabs(), tab) ==> {
                let p = insert_slot(old(self).current());
                &&& final(self).tabs() == old(self).tabs().insert(p, tab)
                &&& final(self).recency() == open_slot(old(self).recency(), p)
                &&& final(self).current() == Some(p)
            },
    {
        match self.position_of(&tab) {
            Some(index) => self.activate_existing(index),
            None => self.add_new(tab),
        }
    }

    /// Takes `tab` out of the tracker and returns the tracked key.
    ///
    /// Positions behind the removed key move down by one. When the removed
    /// key was current, the most recently accessed remaining key becomes
    /// current. An untracked key changes nothing.
    pub fn remove(&mut self, tab: &T) -> (r: Option<T>)
        requires
            old(self).wf(),
        ensures
            final(self).wf(),
            final(self).window() == old(self).window(),
            !tracks(old(self).tabs(), *tab) ==> {
                &&& r is None
                &&& final(self).tabs() == old(self).tabs()
                &&& final(self).recency() == old(self).recency()
                &&& final(self).current() == old(self).current()
            },
            tracks(old(self).tabs(), *tab) ==> {
                let i = slot_of(old(self).tabs(), *tab);
                &&& r == Some(old(self).tabs()[i])
                &&& final(self).tabs() == old(self).tabs().remove(i)
                &&& final(self).recency() == close_slot(old(self).recency(), i)
                &&& final(self).current() == (if old(self).current() == Some(i) {
                    most_recent(final(self).recency())
                } else {
                    Some(after_remove(old(self).current().unwrap(), i))
                })
            },
    {
        let index = match self.position_of(tab) {
            Some(i) => i,
            None => {
                return None;
            },
        };
        let ghost before_tabs = self.tabs();
        let ghost before_recency = self.recency();
        let rank = rank_in(&self.access_order, index);
        proof {
            lemma_close_slot(before_recency, before_tabs.len(), rank as int);
        }
        let removed = self.all_tabs.remove(index);
        self.access_order.remove(rank);
        shift_down(&mut self.access_order, index);
        proof {
            assert(self.recency() =~= close_slot(before_recency, index as int));
        }
        if self.access_order.len() > 0 {
            self.current_tab = Some(self.access_order[0]);
        } else {
            self.current_tab = None;
        }
        proof {
            if rank > 0 {
                assert(before_recency[0] != before_recency[rank as int]);
                assert(self.recency()[0] == after_remove(before_recency[0], index as int));
            }
        }
        Some(removed)
    }

    /// Changes how many keys are reported as visible. No key is dropped.
    pub fn set_max_visible(&mut self, max_visible: usize)
        ensures
            final(self).window() == max_visible,
            final(self).tabs() == old(self).tabs(),
            final(self).recency() == old(self).recency(),
            final(self).current() == old(self).current(),
    {
        self.max_visible = max_visible;
    }

    /// The visible keys: the most recently accessed ones, as many as the
    /// window allows, in layout order.
    pub fn get_visible_tabs(&self) -> (r: Vec<&T>)
        requires
            self.wf(),
        ensures
            r@.len() == at_most(self.window() as int, self.tabs().len() as int),
            r@.len() == self.visible_positions().len(),
            forall|k: int|
                0 <= k < r@.len() ==> *(#[trigger] r@[k]) == self.tabs()[self.visible_positions()[k]],
            forall|k: int|
                0 <= k < r@.len() ==> 0 <= (#[trigger] self.visible_positions()[k])
                    < self.tabs().len(),
            forall|a: int, b: int|
                0 <= a < b < r@.len() ==> (#[trigger] self.visible_positions()[a]) < (
                #[trigger] self.visible_positions()[b]),
    {
        let total = self.all_tabs.len();
        let visible_count = if self.max_visible <= total {
            self.max_visible
        } else {
            total
        };
        let ghost recent = self.recency().take(visible_count as int);
        let ghost keep = |p: int| recent.contains(p);
        let ghost range = position_range(total as nat);

        let mut marks: Vec<bool> = Vec::new();
        let mut i: usize = 0;
        while i < total
            invariant
                i <= total,
                marks@.len() == i,
                forall|p: int| 0 <= p < i ==> !(#[trigger] marks@[p]),
            decreases total - i,
        {
            marks.push(false);
            i += 1;
        }

        let mut k: usize = 0;
        while k < visible_count
            invariant
                self.wf(),
                total == self.all_tabs@.len(),
                k <= visible_count <= total,
                marks@.len() == total,
                forall|p: int|
                    0 <= p < total ==> (#[trigger] marks@[p] <==> self.recency().take(
                        k as int,
                    ).contains(p)),
            decreases visible_count - k,
        {
            let p = self.access_order[k];
            proof {
                let before = self.recency().take(k as int);
                let after = self.recency().take(k + 1);
                assert(self.recency()[k as int] == p);
                assert forall|q: int| 0 <= q < total implies ((q == p || before.contains(q))
                    <==> #[trigger] after.contains(q)) by {
                    if q == p {
                        assert(after[k as int] == q);
                    }
                    if before.contains(q) {
                        let j = choose|j: int| 0 <= j < before.len() && before[j] == q;
                        assert(after[j] == q);
                    }
                    if after.contains(q) {
                        let j = choose|j: int| 0 <= j < after.len() && after[j] == q;
                        if j < k {
                            assert(before[j] == q);
                        }
                    }
                }
            }
            marks.set(p, true);
            k += 1;
        }

        let mut out: Vec<&T> = Vec::new();
        let ghost mut chosen: Seq<int> = Seq::empty();
        let mut p: usize = 0;
        proof {
            assert(range.take(0) =~= Seq::<int>::empty());
        }
        while p < total
            invariant
                total == self.all_tabs@.len(),
                p <= total,
                marks@.len() == total,
                range == position_range(total as nat),
                keep == (|p: int| recent.contains(p)),
                forall|q: int| 0 <= q < total ==> (#[trigger] marks@[q] <==> recent.contains(q)),
                chosen == range.take(p as int).filter(keep),
                out@.len() == chosen.len(),
                forall|j: int| 0 <= j < out@.len() ==> *(#[trigger] out@[j]) == self.all_tabs@[chosen[j]],
                forall|j: int| 0 <= j < chosen.len() ==> 0 <= #[trigger] chosen[j] < p,
            decreases total - p,
        {
            proof {
                assert(range.take(p + 1) =~= range.take(p as int).push(p as int));
                range.take(p as int).lemma_filter_push(p as int, keep);
            }
            if marks[p] {
                out.push(&self.all_tabs[p]);
                proof {
                    chosen = chosen.push(p as int);
                }
            }
            p += 1;
        }
        proof {
            assert(range.take(total as int) =~= range);
            lemma_window_len(self.recency(), self.tabs().len(), visible_count as int);
            lemma_filtered_range_increases(total as nat, keep);
        }
        out
    }

    /// The current key.
    pub fn current_tab(&self) -> (r: Option<&T>)
        requires
            self.wf(),
        ensures
            match self.current() {
                Some(c) => r == Some(&self.tabs()[c]),
                None => r is None,
            },
    {
        match self.current_tab {
            Some(c) => {
                proof {
                    assert(self.recency()[0] == c);
                }
                Some(&self.all_tabs[c])
            },
            None => None,
        }
    }

    /// Moves the current key directly in front of `anchor_tab`, or to the end
    /// when no anchor is given.
    ///
    /// Nothing changes, and `false` is returned, when there is no current key,
    /// when the anchor is not tracked, or when the current key is already in
    /// that place.
    pub fn move_current_tab(&mut self, anchor_tab: Option<&T>) -> (r: bool)
        requires
            old(self).wf(),
        ensures
            final(self).wf(),
            final(self).window() == old(self).window(),
            ({
                let anchor = match anchor_tab {
                    Some(a) => Some(*a),
                    None => None,
                };
                let target = move_target(old(self).tabs(), old(self).current(), anchor);
                if target is Some && target != old(self).current() {
                    let from = old(self).current().unwrap();
                    let to = target.unwrap();
                    &&& r
                    &&& final(self).tabs() == old(self).tabs().remove(from).insert(
                        to,
                        old(self).tabs()[from],
                    )
                    &&& final(self).recency() == relocate(old(self).recency(), from, to)
                    &&& final(self).current() == Some(to)
                } else {
                    &&& !r
                    &&& final(self).tabs() == old(self).tabs()
                    &&& final(self).recency() == old(self).recency()
                    &&& final(self).current() == old(self).current()
                }
            }),
    {
        let old_index = match self.current_tab {
            Some(c) => c,
            None => {
                return false;
            },
        };
        proof {
            assert(self.recency()[0] == old_index);
        }
        let new_index = match anchor_tab {
            Some(tab) => match self.position_of(tab) {
                Some(j) => if old_index < j {
                    j - 1
                } else {
                    j
                },
                None => {
                    return false;
                },
            },
            None => self.all_tabs.len() - 1,
        };
        if old_index == new_index {
            return false;
        }
        let ghost before_tabs = self.tabs();
        let ghost before_recency = self.recency();
        let tab = self.all_tabs.remove(old_index);
        self.all_tabs.insert(new_index, tab);
        remap(&mut self.access_order, old_index, new_index);
        self.current_tab = Some(new_index);
        proof {
            lemma_relocate(
                before_recency,
                before_tabs.len(),
                old_index as int,
                new_index as int,
            );
            assert(self.recency() =~= relocate(before_recency, old_index as int, new_index as int));
            let after_tabs = self.tabs();
            assert forall|i: int, j: int|
                0 <= i < after_tabs.len() && 0 <= j < after_tabs.len() && i != j implies !(
            #[trigger] after_tabs[i].eq_spec(&after_tabs[j])) by {
                let oi = source_of(i, old_index as int, new_index as int);
                let oj = source_of(j, old_index as int, new_index as int);
                assert(after_tabs[i] == before_tabs[oi]);
                assert(after_tabs[j] == before_tabs[oj]);
            }
        }
        true
    }

    /// The recency order as stored: positions into the layout order, most
    /// recently accessed first.
    pub fn access_order(&self) -> (r: &Vec<usize>)
        ensures
            positions(r@) == self.recency(),
    {
        &self.access_order
    }

    /// Makes the key at `index` current and the most recently accessed.
    fn activate_existing(&mut self, index: usize)
        requires
            old(self).wf(),
            index < old(self).tabs().len(),
        ensures
            final(self).wf(),
            final(self).window() == old(self).window(),
            final(self).tabs() == old(self).tabs(),
            final(self).recency() == promote(old(self).recency(), index as int),
            final(self).current() == Some(index as int),
    {
        let ghost before_recency = self.recency();
        let rank = rank_in(&self.access_order, index);
        proof {
            lemma_promote(before_recency, self.tabs().len(), rank as int);
        }
        self.current_tab = Some(index);
        self.access_order.remove(rank);
        self.access_order.insert(0, index);
        proof {
            assert(self.recency() =~= promote(before_recency, index as int));
        }
    }

    /// Puts a new key right after the current one and makes it current.
    fn add_new(&mut self, tab: T)
        requires
            old(self).wf(),
            !tracks(old(self).tabs(), tab),
        ensures
            final(self).wf(),
            final(self).window() == old(self).window(),
            final(self).tabs() == old(self).tabs().insert(insert_slot(old(self).current()), tab),
            final(self).recency() == open_slot(
                old(self).recency(),
                insert_slot(old(self).current()),
            ),
            final(self).current() == Some(insert_slot(old(self).current())),
    {
        let ghost before_tabs = self.tabs();
        let ghost before_recency = self.recency();
        let insert_pos = match self.current_tab {
            Some(current) => {
                proof {
                    assert(self.recency()[0] == current);
                    assert(0 <= self.recency()[0] < self.tabs().len());
                    assert(self.tabs().len() == self.all_tabs.len());
                }
                current + 1
            },
            None => 0,
        };
        proof {
            lemma_open_slot(before_recency, before_tabs.len(), insert_pos as int);
        }
        proof {
            assert forall|j: int| 0 <= j < self.access_order@.len() implies (
            #[trigger] self.access_order@[j]) < usize::MAX by {
                assert(before_recency[j] == self.access_order@[j] as int);
                assert(0 <= before_recency[j] < before_tabs.len());
                assert(before_tabs.len() == self.all_tabs.len());
            }
        }
        self.all_tabs.insert(insert_pos, tab);
        shift_up(&mut self.access_order, insert_pos);
        self.access_order.insert(0, insert_pos);
        self.current_tab = Some(insert_pos);
        proof {
            assert(self.recency() =~= open_slot(before_recency, insert_pos as int));
            let after_tabs = self.tabs();
            assert forall|i: int, j: int|
                0 <= i < after_tabs.len() && 0 <= j < after_tabs.len() && i != j implies !(
            #[trigger] after_tabs[i].eq_spec(&after_tabs[j])) by {
                let oi = if i > insert_pos {
                    i - 1
                } else {
                    i
                };
                let oj = if j > insert_pos {
                    j - 1
                } else {
                    j
                };
                if i == insert_pos {
                    assert(after_tabs[j] == before_tabs[oj]);
                    assert(!before_tabs[oj].eq_spec(&tab));
                } else if j == insert_pos {
                    assert(after_tabs[i] == before_tabs[oi]);
                    assert(!before_tabs[oi].eq_spec(&tab));
                } else {
                    assert(after_tabs[i] == before_tabs[oi]);
                    assert(after_tabs[j] == before_tabs[oj]);
                }
            }
        }
    }
}

/// The position before the move of the key that stands at `x` after the key
/// at `from` was moved to `to`.
pub open spec fn source_of(x: int, from: int, to: int) -> int {
    if x == to {
        from
    } else if from <= x < to {
        x + 1
    } else if to < x <= from {
        x - 1
    } else {
        x
    }
}

/// The rank of position `p` in a recency order.
fn rank_in(order: &Vec<usize>, p: usize) -> (k: usize)
    requires
        positions(order@).contains(p as int),
    ensures
        k < order@.len(),
        order@[k as int] == p,
{
    let mut k: usize = 0;
    proof {
        let j = choose|j: int| 0 <= j < order@.len() && positions(order@)[j] == p as int;
        assert(order@[j] == p);
    }
    while k < order.len()
        invariant
            k <= order@.len(),
            forall|j: int| 0 <= j < k ==> order@[j] != p,
            exists|j: int| 0 <= j < order@.len() && order@[j] == p,
        decreases order@.len() - k,
    {
        if order[k] == p {
            return k;
        }
        k += 1;
    }
    proof {
        assert(false);
    }
    0
}

/// Moves every position at or behind `from` up by one.
fn shift_up(order: &mut Vec<usize>, from: usize)
    requires
        forall|j: int| 0 <= j < old(order)@.len() ==> (#[trigger] old(order)@[j]) < usize::MAX,
    ensures
        positions(final(order)@) == positions(old(order)@).map_values(
            |x: int| after_insert(x, from as int),
        ),
{
    let ghost before = order@;
    let mut k: usize = 0;
    while k < order.len()
        invariant
            k <= order@.len(),
            order@.len() == before.len(),
            forall|j: int| 0 <= j < before.len() ==> (#[trigger] before[j]) < usize::MAX,
            forall|j: int|
                0 <= j < k ==> (#[trigger] order@[j]) as int == after_insert(
                    before[j] as int,
                    from as int,
                ),
            forall|j: int| k <= j < order@.len() ==> #[trigger] order@[j] == before[j],
        decreases order@.len() - k,
    {
        let x = order[k];
        if x >= from {
            order.set(k, x + 1);
        }
        k += 1;
    }
    proof {
        assert(positions(order@) =~= positions(before).map_values(
            |x: int| after_insert(x, from as int),
        ));
    }
}

/// Moves every position behind `gone` down by one.
fn shift_down(order: &mut Vec<usize>, gone: usize)
    ensures
        positions(final(order)@) == positions(old(order)@).map_values(
            |x: int| after_remove(x, gone as int),
        ),
{
    let ghost before = order@;
    let mut k: usize = 0;
    while k < order.len()
        invariant
            k <= order@.len(),
            order@.len() == before.len(),
            forall|j: int|
                0 <= j < k ==> (#[trigger] order@[j]) as int == after_remove(
                    before[j] as int,
                    gone as int,
                ),
            forall|j: int| k <= j < order@.len() ==> #[trigger] order@[j] == before[j],
        decreases order@.len() - k,
    {
        let x = order[k];
        if x > gone {
            order.set(k, x - 1);
        }
        k += 1;
    }
    proof {
        assert(positions(order@) =~= positions(before).map_values(
            |x: int| after_remove(x, gone as int),
        ));
    }
}

/// Renumbers the positions after the key at `from` was moved to `to`.
fn remap(order: &mut Vec<usize>, from: usize, to: usize)
    ensures
        positions(final(order)@) == relocate(positions(old(order)@), from as int, to as int),
{
    let ghost before = order@;
    let mut k: usize = 0;
    while k < order.len()
        invariant
            k <= order@.len(),
            order@.len() == before.len(),
            forall|j: int|
                0 <= j < k ==> (#[trigger] order@[j]) as int == after_move(
                    before[j] as int,
                    from as int,
                    to as int,
                ),
            forall|j: int| k <= j < order@.len() ==> #[trigger] order@[j] == before[j],
        decreases order@.len() - k,
    {
        let x = order[k];
        if x == from {
            order.set(k, to);
        } else if from < x && x <= to {
            order.set(k, x - 1);
        } else if to <= x && x < from {
            order.set(k, x + 1);
        }
        k += 1;
    }
    proof {
        assert(positions(order@) =~= relocate(positions(before), from as int, to as int));
    }
}

} // verus!
