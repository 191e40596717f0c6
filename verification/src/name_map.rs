//! A map from names to values that keeps its entries in the order of the names.

use vstd::prelude::*;

use crate::text::{place, Placement};
use crate::text::{lemma_text_before_irreflexive, lemma_text_before_transitive, text_before};

verus! {

/// The entries stand in the order of their names, so that no name occurs twice.
pub open spec fn in_order<V>(entries: Seq<(Seq<char>, V)>) -> bool {
    forall|i: int, j: int|
        0 <= i < j < entries.len() ==> text_before(
            (#[trigger] entries[i]).0,
            (#[trigger] entries[j]).0,
        )
}

/// Whether some entry bears `name`.
pub open spec fn names<V>(entries: Seq<(Seq<char>, V)>, name: Seq<char>) -> bool {
    exists|i: int| 0 <= i < entries.len() && (#[trigger] entries[i]).0 == name
}

/// A place where an entry bears `name`.
pub open spec fn place_of<V>(entries: Seq<(Seq<char>, V)>, name: Seq<char>) -> int {
    choose|i: int| 0 <= i < entries.len() && (#[trigger] entries[i]).0 == name
}

/// What the entries say of each name.
pub open spec fn contents<V>(entries: Seq<(Seq<char>, V)>) -> Map<Seq<char>, V> {
    Map::new(
        |name: Seq<char>| names(entries, name),
        |name: Seq<char>| entries[place_of(entries, name)].1,
    )
}

/// In ordered entries a name stands in one place only.
pub proof fn lemma_one_place<V>(entries: Seq<(Seq<char>, V)>, i: int, j: int)
    requires
        in_order(entries),
        0 <= i < entries.len(),
        0 <= j < entries.len(),
        entries[i].0 == entries[j].0,
    ensures
        i == j,
{
    lemma_text_before_irreflexive(entries[i].0);
}

/// Each of the ordered entries is what the map holds under its name.
pub proof fn lemma_entry_in_contents<V>(entries: Seq<(Seq<char>, V)>, i: int)
    requires
        in_order(entries),
        0 <= i < entries.len(),
    ensures
        contents(entries).dom().contains(entries[i].0),
        contents(entries)[entries[i].0] == entries[i].1,
{
    let name = entries[i].0;
    assert(names(entries, name));
    lemma_one_place(entries, i, place_of(entries, name));
}

/// Ordered entries are determined by what they say of each name.
pub proof fn law_order_is_determined<V>(
    left: Seq<(Seq<char>, V)>,
    right: Seq<(Seq<char>, V)>,
)
    requires
        in_order(left),
        in_order(right),
        contents(left) == contents(right),
    ensures
        left == right,
    decreases left.len(),
{
    if left.len() == 0 {
        if right.len() > 0 {
            lemma_entry_in_contents(right, 0);
            assert(names(left, right[0].0));
        }
        assert(left =~= right);
    } else {
        lemma_entry_in_contents(left, 0);
        assert(names(right, left[0].0));
        let k = choose|k: int| 0 <= k < right.len() && (#[trigger] right[k]).0 == left[0].0;
        lemma_entry_in_contents(right, 0);
        assert(names(left, right[0].0));
        let m = choose|m: int| 0 <= m < left.len() && (#[trigger] left[m]).0 == right[0].0;
        if k > 0 {
            assert(text_before(right[0].0, right[k].0));
            if m > 0 {
                assert(text_before(left[0].0, left[m].0));
                lemma_text_before_transitive(left[0].0, left[m].0, left[0].0);
            }
            lemma_text_before_irreflexive(left[0].0);
        }
        assert(k == 0);
        lemma_entry_in_contents(right, 0);
        assert(left[0] == right[0]);
        let l = left.drop_first();
        let r = right.drop_first();
        assert forall|i: int, j: int| 0 <= i < j < l.len() implies text_before(
            (#[trigger] l[i]).0,
            (#[trigger] l[j]).0,
        ) by {
            assert(l[i] == left[i + 1] && l[j] == left[j + 1]);
        }
        assert forall|i: int, j: int| 0 <= i < j < r.len() implies text_before(
            (#[trigger] r[i]).0,
            (#[trigger] r[j]).0,
        ) by {
            assert(r[i] == right[i + 1] && r[j] == right[j + 1]);
        }
        lemma_contents_drop_first(left);
        lemma_contents_drop_first(right);
        law_order_is_determined(l, r);
        assert(left =~= seq![left[0]] + l);
        assert(right =~= seq![right[0]] + r);
    }
}

/// The entries of a map in the order of their names.
pub open spec fn sorted<V>(map: Map<Seq<char>, V>) -> Seq<(Seq<char>, V)> {
    choose|entries: Seq<(Seq<char>, V)>| in_order(entries) && contents(entries) == map
}

/// Entries that stand in order are the sorted entries of what they say.
pub proof fn lemma_sorted<V>(entries: Seq<(Seq<char>, V)>)
    requires
        in_order(entries),
    ensures
        sorted(contents(entries)) == entries,
{
    let found = sorted(contents(entries));
    assert(in_order(found) && contents(found) == contents(entries));
    law_order_is_determined(found, entries);
}

proof fn lemma_contents_drop_first<V>(entries: Seq<(Seq<char>, V)>)
    requires
        in_order(entries),
        entries.len() > 0,
    ensures
        in_order(entries.drop_first()),
        contents(entries.drop_first()) == contents(entries).remove(entries[0].0),
{
    let rest = entries.drop_first();
    assert(rest =~= entries.remove(0));
    lemma_contents_remove(entries, 0);
}

proof fn lemma_contents_remove<V>(entries: Seq<(Seq<char>, V)>, at: int)
    requires
        in_order(entries),
        0 <= at < entries.len(),
    ensures
        in_order(entries.remove(at)),
        contents(entries.remove(at)) == contents(entries).remove(entries[at].0),
{
    let rest = entries.remove(at);
    assert forall|i: int, j: int| 0 <= i < j < rest.len() implies text_before(
        (#[trigger] rest[i]).0,
        (#[trigger] rest[j]).0,
    ) by {
        let oi = if i < at { i } else { i + 1 };
        let oj = if j < at { j } else { j + 1 };
        assert(rest[i] == entries[oi] && rest[j] == entries[oj]);
    }
    let left = contents(rest);
    let right = contents(entries).remove(entries[at].0);
    assert forall|name: Seq<char>| left.dom().contains(name) == right.dom().contains(name) by {
        if left.dom().contains(name) {
            let i = choose|i: int| 0 <= i < rest.len() && (#[trigger] rest[i]).0 == name;
            let oi = if i < at { i } else { i + 1 };
            assert(entries[oi].0 == name);
            if name == entries[at].0 {
                lemma_one_place(entries, oi, at);
            }
        }
        if right.dom().contains(name) {
            let i = choose|i: int| 0 <= i < entries.len() && (#[trigger] entries[i]).0 == name;
            let ri = if i < at { i } else { i - 1 };
            assert(rest[ri].0 == name);
        }
    }
    assert forall|name: Seq<char>| left.dom().contains(name) implies left[name] == right[name] by {
        let i = choose|i: int| 0 <= i < rest.len() && (#[trigger] rest[i]).0 == name;
        lemma_entry_in_contents(rest, i);
        let oi = if i < at { i } else { i + 1 };
        lemma_entry_in_contents(entries, oi);
    }
    assert(left =~= right);
}

proof fn lemma_contents_insert<V>(entries: Seq<(Seq<char>, V)>, at: int, name: Seq<char>, value: V)
    requires
        in_order(entries),
        0 <= at <= entries.len(),
        forall|i: int| 0 <= i < at ==> text_before((#[trigger] entries[i]).0, name),
        forall|i: int| at <= i < entries.len() ==> text_before(name, (#[trigger] entries[i]).0),
    ensures
        in_order(entries.insert(at, (name, value))),
        !contents(entries).dom().contains(name),
        contents(entries.insert(at, (name, value))) == contents(entries).insert(name, value),
{
    let more = entries.insert(at, (name, value));
    assert forall|i: int, j: int| 0 <= i < j < more.len() implies text_before(
        (#[trigger] more[i]).0,
        (#[trigger] more[j]).0,
    ) by {
        let oi = if i < at { i } else { i - 1 };
        let oj = if j < at { j } else { j - 1 };
        if i != at {
            assert(more[i] == entries[oi]);
        }
        if j != at {
            assert(more[j] == entries[oj]);
        }
    }
    if names(entries, name) {
        let i = choose|i: int| 0 <= i < entries.len() && (#[trigger] entries[i]).0 == name;
        lemma_text_before_irreflexive(name);
    }
    assert(more.remove(at) =~= entries);
    assert(more[at] == (name, value));
    lemma_contents_remove(more, at);
    lemma_entry_in_contents(more, at);
    assert(contents(more) =~= contents(entries).insert(name, value));
}

/// An entry whose name comes after all others adds itself to what the entries say.
pub proof fn lemma_contents_push<V>(entries: Seq<(Seq<char>, V)>, name: Seq<char>, value: V)
    requires
        in_order(entries.push((name, value))),
    ensures
        in_order(entries),
        contents(entries.push((name, value))) == contents(entries).insert(name, value),
{
    let more = entries.push((name, value));
    let last = entries.len() as int;
    assert forall|i: int, j: int| 0 <= i < j < entries.len() implies text_before(
        (#[trigger] entries[i]).0,
        (#[trigger] entries[j]).0,
    ) by {
        assert(more[i] == entries[i] && more[j] == entries[j]);
    }
    assert forall|i: int| 0 <= i < last implies text_before((#[trigger] entries[i]).0, name) by {
        assert(more[i] == entries[i] && more[last].0 == name);
    }
    lemma_contents_insert(entries, last, name, value);
    assert(entries.insert(last, (name, value)) =~= more);
}

proof fn lemma_contents_update<V>(entries: Seq<(Seq<char>, V)>, at: int, value: V)
    requires
        in_order(entries),
        0 <= at < entries.len(),
    ensures
        in_order(entries.update(at, (entries[at].0, value))),
        contents(entries.update(at, (entries[at].0, value))) == contents(entries).insert(
            entries[at].0,
            value,
        ),
{
    let name = entries[at].0;
    let more = entries.update(at, (name, value));
    assert forall|i: int, j: int| 0 <= i < j < more.len() implies text_before(
        (#[trigger] more[i]).0,
        (#[trigger] more[j]).0,
    ) by {
        assert(more[i].0 == entries[i].0 && more[j].0 == entries[j].0);
    }
    assert(more.remove(at) =~= entries.remove(at));
    lemma_contents_remove(more, at);
    lemma_contents_remove(entries, at);
    lemma_entry_in_contents(more, at);
    lemma_entry_in_contents(entries, at);
    assert(contents(more) =~= contents(more).remove(name).insert(name, value));
    assert(contents(entries).insert(name, value) =~= contents(entries).remove(name).insert(
        name,
        value,
    ));
}

/// A map from names to values, in the order of the names.
#[derive(Debug)]
pub struct NameMap<V> {
    entries: Vec<(String, V)>,
}

pub closed spec fn entry_views<V>(entries: Seq<(String, V)>) -> Seq<(Seq<char>, V)> {
    Seq::new(entries.len(), |i: int| (entries[i].0@, entries[i].1))
}

impl<V> View for NameMap<V> {
    type V = Seq<(Seq<char>, V)>;

    closed spec fn view(&self) -> Seq<(Seq<char>, V)> {
        entry_views(self.entries@)
    }
}

impl<V> NameMap<V> {
    /// The entries of a map stand in order.
    #[verifier::type_invariant]
    pub open spec fn ordered(&self) -> bool {
        in_order(self@)
    }

    /// A map without entries.
    pub fn new() -> (r: Self)
        ensures
            r@ == Seq::<(Seq<char>, V)>::empty(),
            contents(r@) == Map::<Seq<char>, V>::empty(),
    {
        let r = NameMap { entries: Vec::new() };
        proof {
            assert(r@ =~= Seq::<(Seq<char>, V)>::empty());
            assert(contents(r@) =~= Map::<Seq<char>, V>::empty());
        }
        r
    }

    /// The number of entries.
    pub fn len(&self) -> (r: usize)
        ensures
            r == self@.len(),
    {
        self.entries.len()
    }

    /// Whether there is no entry.
    pub fn is_empty(&self) -> (r: bool)
        ensures
            r == (self@.len() == 0),
    {
        self.entries.len() == 0
    }

    /// The name of an entry, by its place in the order.
    pub fn name_at(&self, index: usize) -> (r: &str)
        requires
            index < self@.len(),
        ensures
            r@ == self@[index as int].0,
    {
        self.entries[index].0.as_str()
    }

    /// The value of an entry, by its place in the order.
    pub fn value_at(&self, index: usize) -> (r: &V)
        requires
            index < self@.len(),
        ensures
            *r == self@[index as int].1,
    {
        &self.entries[index].1
    }

    /// The place of `name`, and whether an entry bears it; the place where it belongs if none does.
    fn locate(&self, name: &str) -> (r: (usize, bool))
        ensures
            r.0 <= self@.len(),
            in_order(self@),
            r.1 ==> r.0 < self@.len() && self@[r.0 as int].0 == name@,
            forall|i: int| 0 <= i < r.0 ==> text_before((#[trigger] self@[i]).0, name@),
            !r.1 ==> forall|i: int|
                r.0 <= i < self@.len() ==> text_before(name@, (#[trigger] self@[i]).0),
    {
        proof {
            use_type_invariant(self);
        }
        let mut index: usize = 0;
        while index < self.entries.len()
            invariant
                index <= self@.len(),
                in_order(self@),
                forall|i: int| 0 <= i < index ==> text_before((#[trigger] self@[i]).0, name@),
            decreases self@.len() - index,
        {
            match place(self.entries[index].0.as_str(), name) {
                Placement::Before => {
                    assert(text_before(self@[index as int].0, name@));
                },
                Placement::Same => {
                    return (index, true);
                },
                Placement::After => {
                    proof {
                        assert forall|i: int| index <= i < self@.len() implies text_before(
                            name@,
                            (#[trigger] self@[i]).0,
                        ) by {
                            assert(text_before(name@, self@[index as int].0));
                            if i > index {
                                assert(text_before(self@[index as int].0, self@[i].0));
                                lemma_text_before_transitive(
                                    name@,
                                    self@[index as int].0,
                                    self@[i].0,
                                );
                            }
                        }
                    }
                    return (index, false);
                },
            }
            index += 1;
        }
        (index, false)
    }

    /// The value held under `name`.
    pub fn get(&self, name: &str) -> (r: Option<&V>)
        ensures
            r is Some <==> contents(self@).dom().contains(name@),
            r matches Some(value) ==> contents(self@)[name@] == *value,
    {
        let (index, found) = self.locate(name);
        if found {
            proof {
                lemma_entry_in_contents(self@, index as int);
            }
            Some(&self.entries[index].1)
        } else {
            proof {
                if names(self@, name@) {
                    let i = choose|i: int|
                        0 <= i < self@.len() && (#[trigger] self@[i]).0 == name@;
                    lemma_text_before_irreflexive(name@);
                }
            }
            None
        }
    }

    /// Sets the value under `name` and hands back the one that stood there.
    pub fn insert(&mut self, name: String, value: V) -> (r: Option<V>)
        ensures
            final(self).ordered(),
            contents(final(self)@) == contents(old(self)@).insert(name@, value),
            r is Some <==> contents(old(self)@).dom().contains(name@),
            r matches Some(previous) ==> contents(old(self)@)[name@] == previous,
    {
        let (index, found) = self.locate(name.as_str());
        let ghost before = self@;
        let ghost key = name@;
        let mut entries: Vec<(String, V)> = Vec::new();
        proof {
            assert(entry_views(entries@) =~= Seq::<(Seq<char>, V)>::empty());
        }
        std::mem::swap(&mut entries, &mut self.entries);
        let r = if found {
            proof {
                lemma_entry_in_contents(before, index as int);
                lemma_contents_update(before, index as int, value);
            }
            let (kept, previous) = entries.remove(index);
            entries.insert(index, (kept, value));
            assert(entry_views(entries@) =~= before.update(index as int, (key, value)));
            Some(previous)
        } else {
            proof {
                lemma_contents_insert(before, index as int, key, value);
            }
            entries.insert(index, (name, value));
            assert(entry_views(entries@) =~= before.insert(index as int, (key, value)));
            None
        };
        self.entries = entries;
        r
    }

    /// Takes out the entry at a place in the order.
    pub fn remove_at(&mut self, index: usize) -> (r: V)
        requires
            index < old(self)@.len(),
        ensures
            final(self).ordered(),
            final(self)@ == old(self)@.remove(index as int),
            contents(final(self)@) == contents(old(self)@).remove(old(self)@[index as int].0),
            r == old(self)@[index as int].1,
    {
        proof {
            use_type_invariant(&*self);
        }
        let ghost before = self@;
        let mut entries: Vec<(String, V)> = Vec::new();
        proof {
            assert(entry_views(entries@) =~= Seq::<(Seq<char>, V)>::empty());
            lemma_contents_remove(before, index as int);
        }
        std::mem::swap(&mut entries, &mut self.entries);
        let (_name, value) = entries.remove(index);
        assert(entry_views(entries@) =~= before.remove(index as int));
        self.entries = entries;
        value
    }

    /// Takes out the entry under `name`, if there is one.
    pub fn remove(&mut self, name: &str) -> (r: Option<V>)
        ensures
            final(self).ordered(),
            contents(final(self)@) == contents(old(self)@).remove(name@),
            r is Some <==> contents(old(self)@).dom().contains(name@),
            r matches Some(value) ==> contents(old(self)@)[name@] == value,
    {
        let (index, found) = self.locate(name);
        if found {
            proof {
                lemma_entry_in_contents(self@, index as int);
            }
            Some(self.remove_at(index))
        } else {
            proof {
                if names(self@, name@) {
                    let i = choose|i: int|
                        0 <= i < self@.len() && (#[trigger] self@[i]).0 == name@;
                    lemma_text_before_irreflexive(name@);
                }
                assert(contents(self@).remove(name@) =~= contents(self@));
            }
            None
        }
    }
}

impl<V: Clone> Clone for NameMap<V> {
    fn clone(&self) -> (r: Self)
        ensures
            r@.len() == self@.len(),
            forall|i: int|
                0 <= i < self@.len() ==> (#[trigger] r@[i]).0 == self@[i].0 && cloned(
                    self@[i].1,
                    r@[i].1,
                ),
    {
        proof {
            use_type_invariant(self);
        }
        let mut entries: Vec<(String, V)> = Vec::new();
        let mut index: usize = 0;
        while index < self.entries.len()
            invariant
                index <= self.entries.len(),
                entries.len() == index,
                forall|i: int|
                    0 <= i < index ==> (#[trigger] entries@[i]).0@ == self.entries@[i].0@ && cloned(
                        self.entries@[i].1,
                        entries@[i].1,
                    ),
            decreases self.entries.len() - index,
        {
            entries.push((self.entries[index].0.clone(), self.entries[index].1.clone()));
            index += 1;
        }
        proof {
            let made = entry_views(entries@);
            assert forall|i: int, j: int| 0 <= i < j < made.len() implies text_before(
                (#[trigger] made[i]).0,
                (#[trigger] made[j]).0,
            ) by {
                assert(made[i].0 == self@[i].0 && made[j].0 == self@[j].0);
            }
        }
        NameMap { entries }
    }
}

/// A map of ordered entries holds a name exactly if an entry bears it, and under the name the value
/// of that entry.
pub proof fn law_maps_hold_their_entries<V>(entries: Seq<(Seq<char>, V)>, name: Seq<char>)
    requires
        in_order(entries),
    ensures
        contents(entries).dom().contains(name) <==> exists|i: int|
            0 <= i < entries.len() && (#[trigger] entries[i]).0 == name,
        forall|i: int|
            0 <= i < entries.len() && (#[trigger] entries[i]).0 == name ==> contents(entries)[name]
                == entries[i].1,
{
    assert forall|i: int| 0 <= i < entries.len() && (#[trigger] entries[i]).0 == name implies contents(
        entries,
    )[name] == entries[i].1 by {
        lemma_entry_in_contents(entries, i);
    }
}

/// Entries stand in order exactly if each name comes before those that follow it.
pub proof fn law_order_is_by_name<V>(entries: Seq<(Seq<char>, V)>)
    ensures
        in_order(entries) <==> forall|i: int, j: int|
            0 <= i < j < entries.len() ==> text_before(
                (#[trigger] entries[i]).0,
                (#[trigger] entries[j]).0,
            ),
{
}

} // verus!
