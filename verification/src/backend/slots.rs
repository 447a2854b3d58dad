//! A table of named values held in numbered slots.
//!
//! Values live in a vector of slots; a name index maps each name to the slot
//! of its value. A slot keeps its number for as long as its value stays, so
//! the order in which the table is walked changes only where a value enters
//! or leaves. A new value takes the first free slot.

use crate::backend::index::{
    index_contains_key, index_entries, index_get, index_insert, index_is_empty, index_len,
    index_new, index_remove, no_entries,
};
use dashmap::DashMap;
use vstd::prelude::*;

verus! {

/// Numbered slots, each free or holding a value under a name.
pub type Slots<T> = Seq<Option<(Seq<char>, T)>>;

/// Slot `i` of `entries` holds a value under `name`.
pub open spec fn named_at<T>(entries: Slots<T>, name: Seq<char>, i: int) -> bool {
    0 <= i < entries.len() && entries[i] is Some && entries[i].unwrap().0 == name
}

/// Some slot of `entries` holds a value under `name`.
pub open spec fn holds<T>(entries: Slots<T>, name: Seq<char>) -> bool {
    exists|i: int| named_at(entries, name, i)
}

/// A slot of `entries` that holds a value under `name`, where there is one.
pub open spec fn position<T>(entries: Slots<T>, name: Seq<char>) -> int {
    choose|i: int| named_at(entries, name, i)
}

/// The value that `entries` holds under `name`, where it holds one.
pub open spec fn value_of<T>(entries: Slots<T>, name: Seq<char>) -> T {
    entries[position(entries, name)].unwrap().1
}

/// No two slots of `entries` hold a value under the same name.
pub open spec fn unique<T>(entries: Slots<T>) -> bool {
    forall|i: int, j: int|
        0 <= i < entries.len() && 0 <= j < entries.len() && entries[i] is Some && entries[j] is Some
            && entries[i].unwrap().0 == entries[j].unwrap().0 ==> i == j
}

/// `f` is the first free slot of `entries`, or their number if none is free.
pub open spec fn is_first_free<T>(entries: Slots<T>, f: int) -> bool {
    &&& 0 <= f <= entries.len()
    &&& f < entries.len() ==> entries[f] is None
    &&& forall|j: int| 0 <= j < f ==> entries[j] is Some
}

/// The first free slot of `entries`, or their number if none is free.
pub open spec fn first_free<T>(entries: Slots<T>) -> int {
    choose|f: int| is_first_free(entries, f)
}

/// `entries` with `value` under `name`: in the slot that held a value under
/// `name`, else in the first free slot, else in a new last slot.
pub open spec fn put<T>(entries: Slots<T>, name: Seq<char>, value: T) -> Slots<T> {
    if holds(entries, name) {
        entries.update(position(entries, name), Some((name, value)))
    } else if first_free(entries) < entries.len() {
        entries.update(first_free(entries), Some((name, value)))
    } else {
        entries.push(Some((name, value)))
    }
}

/// `entries` with the slot of `name` free.
pub open spec fn without<T>(entries: Slots<T>, name: Seq<char>) -> Slots<T> {
    if holds(entries, name) {
        entries.update(position(entries, name), None)
    } else {
        entries
    }
}

/// The number of slots of `entries` that hold a value.
pub open spec fn live_count<T>(entries: Slots<T>) -> nat
    decreases entries.len(),
{
    if entries.len() == 0 {
        0
    } else {
        live_count(entries.drop_last()) + if entries.last() is Some {
            1nat
        } else {
            0nat
        }
    }
}

/// The names under which `entries` hold a value, in slot order.
pub open spec fn live_names<T>(entries: Slots<T>) -> Seq<Seq<char>>
    decreases entries.len(),
{
    if entries.len() == 0 {
        Seq::empty()
    } else if entries.last() is Some {
        live_names(entries.drop_last()).push(entries.last().unwrap().0)
    } else {
        live_names(entries.drop_last())
    }
}

/// With unique names, the slot of a name is the one slot that holds it.
pub proof fn lemma_position<T>(entries: Slots<T>, name: Seq<char>, i: int)
    requires
        unique(entries),
        named_at(entries, name, i),
    ensures
        holds(entries, name),
        position(entries, name) == i,
{
    assert(named_at(entries, name, position(entries, name)));
}

/// The first free slot is the one that `is_first_free` describes.
pub proof fn lemma_first_free<T>(entries: Slots<T>, f: int)
    requires
        is_first_free(entries, f),
    ensures
        first_free(entries) == f,
{
    let g = first_free(entries);
    assert(is_first_free(entries, g));
    if g < f {
        assert(entries[g] is Some);
    }
    if f < g {
        assert(entries[f] is Some);
    }
}

/// Changing one slot changes the number of held values by what the slot
/// gains or loses.
pub proof fn lemma_live_count_update<T>(
    entries: Slots<T>,
    i: int,
    slot: Option<(Seq<char>, T)>,
)
    requires
        0 <= i < entries.len(),
    ensures
        live_count(entries.update(i, slot)) + (if entries[i] is Some {
            1nat
        } else {
            0nat
        }) == live_count(entries) + (if slot is Some {
            1nat
        } else {
            0nat
        }),
    decreases entries.len(),
{
    let changed = entries.update(i, slot);
    if i == entries.len() - 1 {
        assert(changed.drop_last() =~= entries.drop_last());
    } else {
        assert(changed.drop_last() =~= entries.drop_last().update(i, slot));
        lemma_live_count_update(entries.drop_last(), i, slot);
    }
}

/// A new last slot with a value adds one to the number of held values.
pub proof fn lemma_live_count_push<T>(entries: Slots<T>, slot: Option<(Seq<char>, T)>)
    ensures
        live_count(entries.push(slot)) == live_count(entries) + (if slot is Some {
            1nat
        } else {
            0nat
        }),
{
    assert(entries.push(slot).drop_last() =~= entries);
}

/// Every list of slots has a first free slot.
pub proof fn lemma_first_free_exists<T>(entries: Slots<T>)
    ensures
        is_first_free(entries, first_free(entries)),
    decreases entries.len(),
{
    if entries.len() == 0 {
        assert(is_first_free(entries, 0));
    } else {
        let shorter = entries.drop_last();
        lemma_first_free_exists(shorter);
        let f = first_free(shorter);
        if f < shorter.len() {
            assert(shorter[f] is None);
            assert forall|j: int| 0 <= j < f implies entries[j] is Some by {
                assert(shorter[j] is Some);
            }
            assert(is_first_free(entries, f));
        } else {
            assert forall|j: int| 0 <= j < shorter.len() implies entries[j] is Some by {
                assert(shorter[j] is Some);
            }
            if entries.last() is None {
                assert(is_first_free(entries, entries.len() - 1));
            } else {
                assert(is_first_free(entries, entries.len() as int));
            }
        }
    }
}

/// What `put` does: the name is held with the new value, every other name
/// is held as before, names stay unique, and one more value is held where
/// the name is new.
pub proof fn lemma_put<T>(entries: Slots<T>, name: Seq<char>, value: T)
    requires
        unique(entries),
    ensures
        unique(put(entries, name, value)),
        holds(put(entries, name, value), name),
        value_of(put(entries, name, value), name) == value,
        forall|other: Seq<char>|
            other != name ==> (#[trigger] holds(put(entries, name, value), other) == holds(
                entries,
                other,
            )),
        forall|other: Seq<char>|
            other != name && holds(entries, other) ==> #[trigger] value_of(
                put(entries, name, value),
                other,
            ) == value_of(entries, other),
        forall|other: Seq<char>|
            other != name && holds(entries, other) ==> #[trigger] position(
                put(entries, name, value),
                other,
            ) == position(entries, other),
        live_count(put(entries, name, value)) == live_count(entries) + (if holds(entries, name) {
            0nat
        } else {
            1nat
        }),
        holds(entries, name) ==> put(entries, name, value).len() == entries.len(),
{
    let after = put(entries, name, value);
    let at: int = if holds(entries, name) {
        position(entries, name)
    } else {
        first_free(entries)
    };
    lemma_first_free_exists(entries);
    if holds(entries, name) {
        assert(named_at(entries, name, at));
        lemma_live_count_update(entries, at, Some((name, value)));
    } else if at < entries.len() {
        lemma_live_count_update(entries, at, Some((name, value)));
    } else {
        lemma_live_count_push(entries, Some((name, value)));
    }
    assert(named_at(after, name, at));
    assert forall|i: int, j: int|
        0 <= i < after.len() && 0 <= j < after.len() && after[i] is Some && after[j] is Some
            && after[i].unwrap().0 == after[j].unwrap().0 implies i == j by {
        if i == at && j != at {
            assert(named_at(entries, name, j));
        }
        if j == at && i != at {
            assert(named_at(entries, name, i));
        }
    }
    lemma_position(after, name, at);
    assert forall|other: Seq<char>| other != name implies (#[trigger] holds(after, other) == holds(
        entries,
        other,
    )) by {
        if holds(entries, other) {
            let i = position(entries, other);
            assert(named_at(entries, other, i));
            assert(named_at(after, other, i));
        }
        if holds(after, other) {
            let i = position(after, other);
            assert(named_at(after, other, i));
            assert(named_at(entries, other, i));
        }
    }
    assert forall|other: Seq<char>| other != name && holds(entries, other) implies #[trigger] value_of(
        after,
        other,
    ) == value_of(entries, other) by {
        let i = position(entries, other);
        assert(named_at(entries, other, i));
        assert(named_at(after, other, i));
        lemma_position(after, other, i);
    }
    assert forall|other: Seq<char>| other != name && holds(entries, other) implies #[trigger] position(
        after,
        other,
    ) == position(entries, other) by {
        let i = position(entries, other);
        assert(named_at(entries, other, i));
        assert(named_at(after, other, i));
        lemma_position(after, other, i);
    }
}

/// What `without` does: the name is no longer held, every other name is
/// held as before, names stay unique, and one value less is held where the
/// name was held.
pub proof fn lemma_without<T>(entries: Slots<T>, name: Seq<char>)
    requires
        unique(entries),
    ensures
        unique(without(entries, name)),
        !holds(without(entries, name), name),
        without(entries, name).len() == entries.len(),
        forall|other: Seq<char>|
            other != name ==> (#[trigger] holds(without(entries, name), other) == holds(
                entries,
                other,
            )),
        forall|other: Seq<char>|
            other != name && holds(entries, other) ==> #[trigger] value_of(
                without(entries, name),
                other,
            ) == value_of(entries, other),
        forall|other: Seq<char>|
            other != name && holds(entries, other) ==> #[trigger] position(
                without(entries, name),
                other,
            ) == position(entries, other),
        live_count(without(entries, name)) + (if holds(entries, name) {
            1nat
        } else {
            0nat
        }) == live_count(entries),
{
    let after = without(entries, name);
    if holds(entries, name) {
        let at = position(entries, name);
        assert(named_at(entries, name, at));
        lemma_live_count_update(entries, at, None);
        if holds(after, name) {
            let i = position(after, name);
            assert(named_at(after, name, i));
            assert(named_at(entries, name, i));
        }
        assert forall|other: Seq<char>| other != name implies (#[trigger] holds(after, other)
            == holds(entries, other)) by {
            if holds(entries, other) {
                let i = position(entries, other);
                assert(named_at(entries, other, i));
                assert(named_at(after, other, i));
            }
            if holds(after, other) {
                let i = position(after, other);
                assert(named_at(after, other, i));
                assert(named_at(entries, other, i));
            }
        }
        assert forall|other: Seq<char>|
            other != name && holds(entries, other) implies #[trigger] value_of(after, other)
            == value_of(entries, other) by {
            let i = position(entries, other);
            assert(named_at(entries, other, i));
            assert(named_at(after, other, i));
            lemma_position(after, other, i);
        }
        assert forall|other: Seq<char>|
            other != name && holds(entries, other) implies #[trigger] position(after, other)
            == position(entries, other) by {
            let i = position(entries, other);
            assert(named_at(entries, other, i));
            assert(named_at(after, other, i));
            lemma_position(after, other, i);
        }
    }
}

/// The values that `entries` hold, in slot order.
pub open spec fn live_values<T>(entries: Slots<T>) -> Seq<T>
    decreases entries.len(),
{
    if entries.len() == 0 {
        Seq::empty()
    } else if entries.last() is Some {
        live_values(entries.drop_last()).push(entries.last().unwrap().1)
    } else {
        live_values(entries.drop_last())
    }
}

/// As many values and names are listed as are counted.
pub proof fn lemma_live_len<T>(entries: Slots<T>)
    ensures
        live_values(entries).len() == live_count(entries),
        live_names(entries).len() == live_count(entries),
    decreases entries.len(),
{
    if entries.len() > 0 {
        lemma_live_len(entries.drop_last());
    }
}

/// With unique names, the value listed at a place is the value held under
/// the name listed at that place.
pub proof fn lemma_live_value<T>(entries: Slots<T>, k: int)
    requires
        unique(entries),
        0 <= k < live_values(entries).len(),
    ensures
        k < live_names(entries).len(),
        holds(entries, live_names(entries)[k]),
        value_of(entries, live_names(entries)[k]) == live_values(entries)[k],
    decreases entries.len(),
{
    lemma_live_len(entries);
    if entries.len() > 0 {
        let shorter = entries.drop_last();
        let last = entries.len() - 1;
        lemma_live_len(shorter);
        assert forall|i: int, j: int|
            0 <= i < shorter.len() && 0 <= j < shorter.len() && shorter[i] is Some
                && shorter[j] is Some && shorter[i].unwrap().0 == shorter[j].unwrap().0 implies i
            == j by {
            assert(entries[i] is Some && entries[j] is Some);
        }
        if k < live_values(shorter).len() {
            lemma_live_value(shorter, k);
            let name = live_names(shorter)[k];
            let i = position(shorter, name);
            assert(named_at(shorter, name, i));
            assert(named_at(entries, name, i));
            lemma_position(entries, name, i);
        } else {
            let name = entries[last].unwrap().0;
            assert(named_at(entries, name, last));
            lemma_position(entries, name, last);
        }
    }
}

/// With unique names, a value that is held is listed, under its name.
pub proof fn lemma_held_is_listed<T>(entries: Slots<T>, name: Seq<char>)
    requires
        unique(entries),
        holds(entries, name),
    ensures
        exists|k: int|
            0 <= k < live_values(entries).len() && k < live_names(entries).len() && live_names(
                entries,
            )[k] == name && #[trigger] live_values(entries)[k] == value_of(entries, name),
    decreases entries.len(),
{
    let i = position(entries, name);
    assert(named_at(entries, name, i));
    lemma_live_len(entries);
    if entries.len() > 0 {
        let shorter = entries.drop_last();
        let last = entries.len() - 1;
        lemma_live_len(shorter);
        if i < last {
            assert forall|a: int, b: int|
                0 <= a < shorter.len() && 0 <= b < shorter.len() && shorter[a] is Some
                    && shorter[b] is Some && shorter[a].unwrap().0 == shorter[b].unwrap().0 implies a
                == b by {
                assert(entries[a] is Some && entries[b] is Some);
            }
            assert(named_at(shorter, name, i));
            lemma_position(shorter, name, i);
            lemma_held_is_listed(shorter, name);
            let k = choose|k: int|
                0 <= k < live_values(shorter).len() && k < live_names(shorter).len() && live_names(
                    shorter,
                )[k] == name && #[trigger] live_values(shorter)[k] == value_of(shorter, name);
            assert(live_values(entries)[k] == value_of(entries, name));
            assert(live_names(entries)[k] == name);
        } else {
            let k = live_values(entries).len() - 1;
            assert(live_values(entries)[k] == value_of(entries, name));
            assert(live_names(entries)[k] == name);
        }
    }
}

/// The name listed at a place is the name under which the value listed at
/// that place is held.
pub proof fn lemma_live_names_match<T>(entries: Slots<T>, k: int)
    requires
        0 <= k < live_values(entries).len(),
    ensures
        k < live_names(entries).len(),
        exists|i: int|
            0 <= i < entries.len() && (#[trigger] entries[i]) is Some && entries[i].unwrap().0
                == live_names(entries)[k] && entries[i].unwrap().1 == live_values(entries)[k],
    decreases entries.len(),
{
    lemma_live_len(entries);
    if entries.len() > 0 {
        let shorter = entries.drop_last();
        lemma_live_len(shorter);
        if k < live_values(shorter).len() {
            lemma_live_names_match(shorter, k);
            let i = choose|i: int|
                0 <= i < shorter.len() && (#[trigger] shorter[i]) is Some && shorter[i].unwrap().0
                    == live_names(shorter)[k] && shorter[i].unwrap().1 == live_values(shorter)[k];
            assert(entries[i] is Some);
        } else {
            assert(entries[entries.len() - 1] is Some);
        }
    }
}

/// The slots with each value replaced by its view.
pub open spec fn viewed<T: View>(entries: Slots<T>) -> Seq<
    Option<(Seq<char>, T::V)>,
> {
    Seq::new(
        entries.len(),
        |i: int|
            match entries[i] {
                Some(entry) => Some((entry.0, entry.1@)),
                None => None,
            },
    )
}

/// Taking views changes neither the names nor where they are held.
pub proof fn lemma_viewed<T: View>(entries: Slots<T>, name: Seq<char>)
    requires
        unique(entries),
    ensures
        unique(viewed(entries)),
        holds(viewed(entries), name) == holds(entries, name),
        holds(entries, name) ==> position(viewed(entries), name) == position(entries, name)
            && value_of(viewed(entries), name) == value_of(entries, name)@,
        first_free(viewed(entries)) == first_free(entries),
        live_count(viewed(entries)) == live_count(entries),
        viewed(entries).len() == entries.len(),
{
    let states = viewed(entries);
    assert forall|i: int, j: int|
        0 <= i < states.len() && 0 <= j < states.len() && states[i] is Some && states[j] is Some
            && states[i].unwrap().0 == states[j].unwrap().0 implies i == j by {
        assert(entries[i] is Some && entries[j] is Some);
    }
    if holds(entries, name) {
        let i = position(entries, name);
        assert(named_at(entries, name, i));
        assert(named_at(states, name, i));
        lemma_position(states, name, i);
    }
    if holds(states, name) {
        let i = position(states, name);
        assert(named_at(states, name, i));
        assert(named_at(entries, name, i));
    }
    lemma_first_free_exists(entries);
    let f = first_free(entries);
    assert forall|j: int| 0 <= j < f implies states[j] is Some by {
        assert(entries[j] is Some);
    }
    assert(is_first_free(states, f));
    lemma_first_free(states, f);
    lemma_viewed_count(entries);
}

/// Taking views keeps the number of held values.
pub proof fn lemma_viewed_count<T: View>(entries: Slots<T>)
    ensures
        live_count(viewed(entries)) == live_count(entries),
        live_names(viewed(entries)) == live_names(entries),
    decreases entries.len(),
{
    if entries.len() > 0 {
        assert(viewed(entries).drop_last() =~= viewed(entries.drop_last()));
        lemma_viewed_count(entries.drop_last());
    }
}

/// The values listed after taking views are the views of the values listed.
pub proof fn lemma_viewed_values<T: View>(entries: Slots<T>)
    ensures
        live_values(viewed(entries)).len() == live_values(entries).len(),
        forall|k: int|
            0 <= k < live_values(entries).len() ==> #[trigger] live_values(viewed(entries))[k]
                == live_values(entries)[k]@,
    decreases entries.len(),
{
    if entries.len() > 0 {
        assert(viewed(entries).drop_last() =~= viewed(entries.drop_last()));
        lemma_viewed_values(entries.drop_last());
    }
}

/// Taking views after `put` is `put` on the views.
pub proof fn lemma_viewed_put<T: View>(entries: Slots<T>, name: Seq<char>, value: T)
    requires
        unique(entries),
    ensures
        viewed(put(entries, name, value)) == put(viewed(entries), name, value@),
{
    lemma_viewed(entries, name);
    lemma_first_free_exists(entries);
    if holds(entries, name) {
        assert(named_at(entries, name, position(entries, name)));
    }
    assert(viewed(put(entries, name, value)) =~= put(viewed(entries), name, value@));
}

/// Taking views after `without` is `without` on the views.
pub proof fn lemma_viewed_without<T: View>(entries: Slots<T>, name: Seq<char>)
    requires
        unique(entries),
    ensures
        viewed(without(entries, name)) == without(viewed(entries), name),
{
    lemma_viewed(entries, name);
    if holds(entries, name) {
        assert(named_at(entries, name, position(entries, name)));
    }
    assert(viewed(without(entries, name)) =~= without(viewed(entries), name));
}

/// The slot of an exec table as it is seen in contracts.
pub open spec fn slot_view<T>(slot: Option<(String, T)>) -> Option<(Seq<char>, T)> {
    match slot {
        Some(entry) => Some((entry.0@, entry.1)),
        None => None,
    }
}

/// Named values in numbered slots, found by name through an index.
pub struct SlotTable<T> {
    index: DashMap<String, usize>,
    slots: Vec<Option<(String, T)>>,
}

impl<T> SlotTable<T> {
    /// The slots of this table, in order: each free, or a name with its value.
    pub closed spec fn entries(&self) -> Slots<T> {
        Seq::new(self.slots@.len(), |i: int| slot_view(self.slots@[i]))
    }

    /// The index and the slots agree: a name is indexed exactly where a slot
    /// holds a value under it, and then under that slot's number.
    pub closed spec fn wf(&self) -> bool {
        let index = index_entries(self.index);
        let entries = self.entries();
        &&& index.dom().finite()
        &&& index.len() == live_count(entries)
        &&& forall|name: Seq<char>| #[trigger]
            index.contains_key(name) ==> named_at(entries, name, index[name] as int)
        &&& forall|i: int|
            0 <= i < entries.len() && #[trigger] entries[i] is Some ==> index.contains_key(
                entries[i].unwrap().0,
            ) && index[entries[i].unwrap().0] == i
    }

    /// In a well-formed table no name is held twice.
    pub proof fn lemma_unique(&self)
        requires
            self.wf(),
        ensures
            unique(self.entries()),
    {
        let entries = self.entries();
        assert forall|i: int, j: int|
            0 <= i < entries.len() && 0 <= j < entries.len() && entries[i] is Some
                && entries[j] is Some && entries[i].unwrap().0 == entries[j].unwrap().0 implies i
            == j by {}
    }

    /// A table without slots.
    pub fn new() -> (table: Self)
        ensures
            table.wf(),
            table.entries() == Slots::<T>::empty(),
    {
        let table = SlotTable { index: index_new(), slots: Vec::new() };
        assert(table.entries() =~= Slots::<T>::empty());
        table
    }

    /// The slot that holds a value under `name`, if one does.
    pub fn slot_of(&self, name: &str) -> (slot: Option<usize>)
        requires
            self.wf(),
        ensures
            slot is Some <==> holds(self.entries(), name@),
            slot matches Some(i) ==> named_at(self.entries(), name@, i as int) && i
                == position(self.entries(), name@),
    {
        let slot = index_get(&self.index, name);
        proof {
            self.lemma_unique();
            let index = index_entries(self.index);
            let entries = self.entries();
            if index.contains_key(name@) {
                lemma_position(entries, name@, index[name@] as int);
            } else if holds(entries, name@) {
                let i = position(entries, name@);
                assert(entries[i] is Some);
            }
        }
        slot
    }

    /// Whether a value is held under `name`.
    pub fn contains(&self, name: &str) -> (found: bool)
        requires
            self.wf(),
        ensures
            found == holds(self.entries(), name@),
    {
        let found = index_contains_key(&self.index, name);
        proof {
            let index = index_entries(self.index);
            let entries = self.entries();
            if !index.contains_key(name@) && holds(entries, name@) {
                let i = position(entries, name@);
                assert(entries[i] is Some);
            }
        }
        found
    }

    /// The value held under `name`, if there is one.
    pub fn get(&self, name: &str) -> (value: Option<&T>)
        requires
            self.wf(),
        ensures
            value is Some <==> holds(self.entries(), name@),
            value matches Some(v) ==> *v == value_of(self.entries(), name@),
    {
        match self.slot_of(name) {
            Some(i) => {
                assert(self.entries()[i as int] == slot_view(self.slots@[i as int]));
                match &self.slots[i] {
                    Some(entry) => Some(&entry.1),
                    None => None,
                }
            },
            None => None,
        }
    }

    /// The number of slots, free ones included.
    pub fn slot_count(&self) -> (n: usize)
        ensures
            n == self.entries().len(),
    {
        self.slots.len()
    }

    /// The value in slot `i`, if the slot holds one.
    pub fn value_at(&self, i: usize) -> (value: Option<&T>)
        requires
            i < self.entries().len(),
        ensures
            value is Some <==> self.entries()[i as int] is Some,
            value matches Some(v) ==> *v == self.entries()[i as int].unwrap().1,
    {
        assert(self.entries()[i as int] == slot_view(self.slots@[i as int]));
        match &self.slots[i] {
            Some(entry) => Some(&entry.1),
            None => None,
        }
    }

    /// The name in slot `i`, if the slot holds a value.
    pub fn name_at(&self, i: usize) -> (name: Option<&str>)
        requires
            i < self.entries().len(),
        ensures
            name is Some <==> self.entries()[i as int] is Some,
            name matches Some(n) ==> n@ == self.entries()[i as int].unwrap().0,
    {
        assert(self.entries()[i as int] == slot_view(self.slots@[i as int]));
        match &self.slots[i] {
            Some(entry) => Some(entry.0.as_str()),
            None => None,
        }
    }

    /// The first free slot, or the number of slots if none is free.
    fn find_free(&self) -> (f: usize)
        ensures
            is_first_free(self.entries(), f as int),
            f as int == first_free(self.entries()),
    {
        let mut f: usize = 0;
        while f < self.slots.len()
            invariant
                f <= self.slots.len(),
                forall|j: int| 0 <= j < f ==> self.entries()[j] is Some,
            decreases self.slots.len() - f,
        {
            assert(self.entries()[f as int] == slot_view(self.slots@[f as int]));
            if self.slots[f].is_none() {
                proof {
                    lemma_first_free(self.entries(), f as int);
                }
                return f;
            }
            f = f + 1;
        }
        proof {
            lemma_first_free(self.entries(), f as int);
        }
        f
    }

    /// Puts `value` under `name`: in place of the value that was held under
    /// `name`, which is handed back, else in the first free slot.
    pub fn insert(&mut self, name: String, value: T) -> (prior: Option<T>)
        requires
            old(self).wf(),
        ensures
            final(self).wf(),
            final(self).entries() == put(old(self).entries(), name@, value),
            prior is Some <==> holds(old(self).entries(), name@),
            prior matches Some(v) ==> v == value_of(old(self).entries(), name@),
    {
        let ghost before = self.entries();
        let ghost index_before = index_entries(self.index);
        let ghost key = name@;
        match self.slot_of(name.as_str()) {
            Some(i) => {
                assert(before[i as int] == slot_view(self.slots@[i as int]));
                let mut slot = Some((name, value));
                self.slots.set_and_swap(i, &mut slot);
                proof {
                    assert(self.entries() =~= before.update(i as int, Some((key, value))));
                    lemma_live_count_update(before, i as int, Some((key, value)));
                    assert forall|n: Seq<char>| #[trigger]
                        index_before.contains_key(n) implies named_at(
                        self.entries(),
                        n,
                        index_before[n] as int,
                    ) by {
                        assert(named_at(before, n, index_before[n] as int));
                    }
                    assert forall|j: int|
                        0 <= j < self.entries().len() && #[trigger] self.entries()[j] is Some implies index_before.contains_key(
                        self.entries()[j].unwrap().0,
                    ) && index_before[self.entries()[j].unwrap().0] == j by {
                        assert(before[j] is Some);
                    }
                }
                match slot {
                    Some(entry) => Some(entry.1),
                    None => None,
                }
            },
            None => {
                let f = self.find_free();
                let owned = name.clone();
                if f < self.slots.len() {
                    self.slots.set(f, Some((name, value)));
                    proof {
                        assert(self.entries() =~= before.update(f as int, Some((key, value))));
                        lemma_live_count_update(before, f as int, Some((key, value)));
                    }
                } else {
                    self.slots.push(Some((name, value)));
                    proof {
                        assert(self.entries() =~= before.push(Some((key, value))));
                        lemma_live_count_push(before, Some((key, value)));
                    }
                }
                index_insert(&mut self.index, owned, f);
                proof {
                    let index = index_entries(self.index);
                    let entries = self.entries();
                    assert(!index_before.contains_key(key)) by {
                        if index_before.contains_key(key) {
                            assert(named_at(before, key, index_before[key] as int));
                        }
                    }
                    assert(index.dom() =~= index_before.dom().insert(key));
                    assert forall|n: Seq<char>| #[trigger] index.contains_key(n) implies named_at(
                        entries,
                        n,
                        index[n] as int,
                    ) by {
                        if n != key {
                            assert(index_before.contains_key(n));
                            assert(named_at(before, n, index_before[n] as int));
                        }
                    }
                    assert forall|j: int|
                        0 <= j < entries.len() && #[trigger] entries[j] is Some implies index.contains_key(
                        entries[j].unwrap().0,
                    ) && index[entries[j].unwrap().0] == j by {
                        if j != f {
                            assert(before[j] is Some);
                        }
                    }
                }
                None
            },
        }
    }

    /// Frees the slot of `name` and hands back the value that it held.
    pub fn remove(&mut self, name: &str) -> (prior: Option<T>)
        requires
            old(self).wf(),
        ensures
            final(self).wf(),
            final(self).entries() == without(old(self).entries(), name@),
            prior is Some <==> holds(old(self).entries(), name@),
            prior matches Some(v) ==> v == value_of(old(self).entries(), name@),
    {
        let ghost before = self.entries();
        let ghost index_before = index_entries(self.index);
        proof {
            self.lemma_unique();
            if index_before.contains_key(name@) {
                lemma_position(before, name@, index_before[name@] as int);
            } else if holds(before, name@) {
                assert(before[position(before, name@)] is Some);
            }
        }
        match index_remove(&mut self.index, name) {
            Some(found) => {
                let i = found.1;
                assert(before[i as int] == slot_view(self.slots@[i as int]));
                let mut slot: Option<(String, T)> = None;
                self.slots.set_and_swap(i, &mut slot);
                proof {
                    let index = index_entries(self.index);
                    let entries = self.entries();
                    assert(entries =~= before.update(i as int, None));
                    lemma_live_count_update(before, i as int, None);
                    assert(index.dom() =~= index_before.dom().remove(name@));
                    assert forall|n: Seq<char>| #[trigger] index.contains_key(n) implies named_at(
                        entries,
                        n,
                        index[n] as int,
                    ) by {
                        assert(index_before.contains_key(n));
                        assert(named_at(before, n, index_before[n] as int));
                    }
                    assert forall|j: int|
                        0 <= j < entries.len() && #[trigger] entries[j] is Some implies index.contains_key(
                        entries[j].unwrap().0,
                    ) && index[entries[j].unwrap().0] == j by {
                        assert(before[j] is Some);
                    }
                }
                match slot {
                    Some(entry) => Some(entry.1),
                    None => None,
                }
            },
            None => {
                assert(index_entries(self.index) =~= index_before);
                None
            },
        }
    }

    /// The value held under `name`, to be changed in place.
    pub fn get_mut(&mut self, name: &str) -> (value: Option<&mut T>)
        requires
            old(self).wf(),
        ensures
            final(self).wf(),
            value is Some <==> holds(old(self).entries(), name@),
            value matches Some(v) ==> *v == value_of(old(self).entries(), name@)
                && final(self).entries() == put(old(self).entries(), name@, *final(v)),
            value is None ==> final(self).entries() == old(self).entries(),
    {
        match self.slot_of(name) {
            Some(i) => {
                assert(self.entries()[i as int] == slot_view(self.slots@[i as int]));
                proof {
                    // Whatever is written through the reference that is handed
                    // out, the table is then the table of now with another
                    // value in slot `i`.
                    let before = *self;
                    assert forall|after: Self|
                        after.revalued(before, i as int) implies #[trigger] after.wf() by {
                        before.lemma_revalued(after, i as int);
                    }
                    assert forall|after: Self|
                        after.revalued(before, i as int) implies #[trigger] after.entries() == put(
                        before.entries(),
                        name@,
                        after.slots@[i as int].unwrap().1,
                    ) by {
                        before.lemma_revalued(after, i as int);
                    }
                }
                match &mut self.slots[i] {
                    Some(entry) => Some(&mut entry.1),
                    None => None,
                }
            },
            None => None,
        }
    }

    /// `self` is `before` with another value in slot `i`, under the same name.
    spec fn revalued(&self, before: Self, i: int) -> bool {
        &&& self.index == before.index
        &&& self.slots@.len() == before.slots@.len()
        &&& 0 <= i < before.slots@.len()
        &&& before.slots@[i] is Some
        &&& self.slots@[i] is Some
        &&& self.slots@[i].unwrap().0 == before.slots@[i].unwrap().0
        &&& forall|j: int| 0 <= j < before.slots@.len() && j != i ==> self.slots@[j] == before.slots@[j]
    }

    /// Another value under the same name leaves the table well-formed.
    proof fn lemma_revalued(&self, after: Self, i: int)
        requires
            self.wf(),
            after.revalued(*self, i),
        ensures
            after.wf(),
            after.entries() == self.entries().update(
                i,
                Some((self.slots@[i].unwrap().0@, after.slots@[i].unwrap().1)),
            ),
    {
        let name = self.slots@[i].unwrap().0@;
        let slot = Some((name, after.slots@[i].unwrap().1));
        assert(self.entries()[i] == slot_view(self.slots@[i]));
        assert(after.entries() =~= self.entries().update(i, slot));
        lemma_live_count_update(self.entries(), i, slot);
        let index = index_entries(self.index);
        assert forall|n: Seq<char>| #[trigger] index.contains_key(n) implies named_at(
            after.entries(),
            n,
            index[n] as int,
        ) by {
            assert(named_at(self.entries(), n, index[n] as int));
        }
        assert forall|j: int|
            0 <= j < after.entries().len() && #[trigger] after.entries()[j] is Some implies index.contains_key(
            after.entries()[j].unwrap().0,
        ) && index[after.entries()[j].unwrap().0] == j by {
            assert(self.entries()[j] is Some);
        }
    }

    /// The values held, in slot order.
    pub fn values(&self) -> (found: Vec<&T>)
        ensures
            found@.len() == live_values(self.entries()).len(),
            forall|k: int| 0 <= k < found@.len() ==> *(#[trigger] found@[k]) == live_values(self.entries())[k],
    {
        let ghost entries = self.entries();
        let mut found: Vec<&T> = Vec::new();
        let mut i: usize = 0;
        assert(entries.take(0) =~= Seq::empty());
        while i < self.slots.len()
            invariant
                i <= self.slots.len(),
                entries == self.entries(),
                found@.len() == live_values(entries.take(i as int)).len(),
                forall|k: int|
                    0 <= k < found@.len() ==> *(#[trigger] found@[k]) == live_values(
                        entries.take(i as int),
                    )[k],
            decreases self.slots.len() - i,
        {
            proof {
                assert(entries.take(i + 1).drop_last() =~= entries.take(i as int));
                assert(entries.take(i + 1).last() == entries[i as int]);
                assert(entries[i as int] == slot_view(self.slots@[i as int]));
            }
            match &self.slots[i] {
                Some(entry) => {
                    found.push(&entry.1);
                },
                None => {},
            }
            i = i + 1;
        }
        assert(entries.take(entries.len() as int) =~= entries);
        found
    }

    /// The number of values held.
    pub fn len(&self) -> (n: usize)
        requires
            self.wf(),
        ensures
            n == live_count(self.entries()),
    {
        index_len(&self.index)
    }

    /// Whether no value is held.
    pub fn is_empty(&self) -> (empty: bool)
        requires
            self.wf(),
        ensures
            empty == (live_count(self.entries()) == 0),
    {
        let empty = index_is_empty(&self.index);
        proof {
            let index = index_entries(self.index);
            if empty {
                assert(index.dom() =~= Set::empty());
            } else {
                if index.len() == 0 {
                    assert(index.dom() =~= Set::empty());
                    assert(index =~= no_entries());
                }
            }
        }
        empty
    }
}

} // verus!
