//! The header collection: names mapped to optional values, each name held once.

use vstd::prelude::*;
use crate::text::{Octets, Text, duplicate_opt, opt_octets, str_eq};

verus! {

/// One header as the contracts see it: the name's characters and the value's bytes.
pub type Field = (Seq<char>, Option<Seq<u8>>);

/// No name occurs twice in `fields`.
pub open spec fn distinct_names(fields: Seq<Field>) -> bool {
    forall|i: int, j: int| 0 <= i < j < fields.len() ==> fields[i].0 != fields[j].0
}

/// The position of `name` in `fields`, or `fields.len()` if it is absent.
pub open spec fn position_of(fields: Seq<Field>, name: Seq<char>) -> int
    decreases fields.len(),
{
    if fields.len() == 0 {
        0
    } else if fields[0].0 == name {
        0
    } else {
        1 + position_of(fields.drop_first(), name)
    }
}

/// `fields` after `name` is given `value`: an entry of that name is
/// overwritten in place, otherwise the new entry goes to the end.
pub open spec fn put(fields: Seq<Field>, name: Seq<char>, value: Option<Seq<u8>>) -> Seq<Field> {
    let p = position_of(fields, name);
    if p < fields.len() {
        fields.update(p, (name, value))
    } else {
        fields.push((name, value))
    }
}

/// The mapping that `fields` stands for; of two entries with one name the later counts.
pub open spec fn as_map(fields: Seq<Field>) -> Map<Seq<char>, Option<Seq<u8>>>
    decreases fields.len(),
{
    if fields.len() == 0 {
        Map::empty()
    } else {
        as_map(fields.drop_last()).insert(fields.last().0, fields.last().1)
    }
}

/// `position_of` finds the first entry of the name, and none before it has that name.
pub proof fn lemma_position_of(fields: Seq<Field>, name: Seq<char>)
    ensures
        0 <= position_of(fields, name) <= fields.len(),
        position_of(fields, name) < fields.len() ==> fields[position_of(fields, name)].0 == name,
        forall|i: int| 0 <= i < position_of(fields, name) ==> fields[i].0 != name,
    decreases fields.len(),
{
    if fields.len() != 0 && fields[0].0 != name {
        let rest = fields.drop_first();
        lemma_position_of(rest, name);
        assert forall|i: int| 0 <= i < position_of(fields, name) implies fields[i].0 != name by {
            if i > 0 {
                assert(fields[i] == rest[i - 1]);
            }
        }
    }
}

/// A name is a key of the mapping exactly if some entry carries it.
pub proof fn lemma_as_map_keys(fields: Seq<Field>, name: Seq<char>)
    ensures
        as_map(fields).contains_key(name) <==> position_of(fields, name) < fields.len(),
    decreases fields.len(),
{
    lemma_position_of(fields, name);
    if fields.len() != 0 {
        let init = fields.drop_last();
        lemma_as_map_keys(init, name);
        lemma_position_of(init, name);
        let p = position_of(init, name);
        if p < init.len() {
            assert(fields[p] == init[p]);
        } else if fields.last().0 != name {
            assert forall|i: int| 0 <= i < fields.len() implies fields[i].0 != name by {
                if i < init.len() {
                    assert(fields[i] == init[i]);
                }
            }
        }
    }
}

/// With distinct names, the mapping gives each name the value of its one entry.
pub proof fn lemma_as_map_value(fields: Seq<Field>, i: int)
    requires
        distinct_names(fields),
        0 <= i < fields.len(),
    ensures
        as_map(fields).contains_key(fields[i].0),
        as_map(fields)[fields[i].0] == fields[i].1,
    decreases fields.len(),
{
    let init = fields.drop_last();
    if i < fields.len() - 1 {
        assert(distinct_names(init)) by {
            assert forall|a: int, b: int| 0 <= a < b < init.len() implies init[a].0 != init[b].0 by {
                assert(init[a] == fields[a] && init[b] == fields[b]);
            }
        }
        assert(init[i] == fields[i]);
        lemma_as_map_value(init, i);
    }
}

/// `put` keeps the names distinct and is insertion on the mapping.
pub proof fn lemma_put(fields: Seq<Field>, name: Seq<char>, value: Option<Seq<u8>>)
    requires
        distinct_names(fields),
    ensures
        distinct_names(put(fields, name, value)),
        as_map(put(fields, name, value)) == as_map(fields).insert(name, value),
{
    lemma_position_of(fields, name);
    let p = position_of(fields, name);
    let after = put(fields, name, value);
    if p < fields.len() {
        lemma_update(fields, p, value);
    } else {
        assert(after.drop_last() =~= fields);
    }
}

/// Overwriting the value of entry `p` is insertion of its name on the mapping.
proof fn lemma_update(fields: Seq<Field>, p: int, value: Option<Seq<u8>>)
    requires
        distinct_names(fields),
        0 <= p < fields.len(),
    ensures
        distinct_names(fields.update(p, (fields[p].0, value))),
        as_map(fields.update(p, (fields[p].0, value))) == as_map(fields).insert(fields[p].0, value),
    decreases fields.len(),
{
    let name = fields[p].0;
    let after = fields.update(p, (name, value));
    let init = fields.drop_last();
    if p == fields.len() - 1 {
        assert(after.drop_last() =~= init);
        assert(as_map(after) =~= as_map(fields).insert(name, value));
    } else {
        assert(distinct_names(init)) by {
            assert forall|a: int, b: int| 0 <= a < b < init.len() implies init[a].0 != init[b].0 by {
                assert(init[a] == fields[a] && init[b] == fields[b]);
            }
        }
        assert(init[p] == fields[p]);
        lemma_update(init, p, value);
        assert(after.drop_last() =~= init.update(p, (name, value)));
        assert(after.last() == fields.last());
        assert(fields.last().0 != name);
        assert(as_map(after) =~= as_map(fields).insert(name, value));
    }
}


/// With distinct names the mapping has as many keys as there are entries.
pub proof fn lemma_as_map_len(fields: Seq<Field>)
    requires
        distinct_names(fields),
    ensures
        as_map(fields).dom().finite(),
        as_map(fields).dom().len() == fields.len(),
    decreases fields.len(),
{
    if fields.len() != 0 {
        let init = fields.drop_last();
        let name = fields.last().0;
        assert(distinct_names(init)) by {
            assert forall|a: int, b: int| 0 <= a < b < init.len() implies init[a].0 != init[b].0 by {
                assert(init[a] == fields[a] && init[b] == fields[b]);
            }
        }
        lemma_as_map_len(init);
        lemma_as_map_keys(init, name);
        lemma_position_of(init, name);
        let p = position_of(init, name);
        if p < init.len() {
            assert(init[p] == fields[p]);
        }
        assert(!as_map(init).dom().contains(name));
    }
}

/// Two lists with distinct names and of one length stand for the same
/// mapping if each entry of the first has its name and value in the second.
pub proof fn lemma_same_map(a: Seq<Field>, b: Seq<Field>)
    requires
        distinct_names(a),
        distinct_names(b),
        a.len() == b.len(),
        forall|i: int|
            0 <= i < a.len() ==> as_map(b).contains_key((#[trigger] a[i]).0) && as_map(b)[a[i].0]
                == a[i].1,
    ensures
        as_map(a) == as_map(b),
{
    lemma_as_map_len(a);
    lemma_as_map_len(b);
    assert forall|k: Seq<char>| as_map(a).dom().contains(k) implies as_map(b).dom().contains(k) by {
        lemma_as_map_keys(a, k);
        lemma_position_of(a, k);
        assert(a[position_of(a, k)].0 == k);
    }
    assert(as_map(a).dom().subset_of(as_map(b).dom()));
    vstd::set_lib::lemma_subset_equality(as_map(a).dom(), as_map(b).dom());
    assert forall|k: Seq<char>| as_map(a).dom().contains(k) implies as_map(a)[k] == as_map(b)[k] by {
        lemma_as_map_keys(a, k);
        lemma_position_of(a, k);
        let p = position_of(a, k);
        assert(a[p].0 == k);
        lemma_as_map_value(a, p);
    }
    assert(as_map(a) =~= as_map(b));
}

/// `position_of` is the one index that carries the name with none before it.
pub proof fn lemma_position_unique(fields: Seq<Field>, name: Seq<char>, p: int)
    requires
        0 <= p <= fields.len(),
        p < fields.len() ==> fields[p].0 == name,
        forall|i: int| 0 <= i < p ==> fields[i].0 != name,
    ensures
        position_of(fields, name) == p,
{
    lemma_position_of(fields, name);
}

/// What a vector of entries holds, as fields.
pub open spec fn fields_of<K: Text, B: Octets>(entries: Seq<(K, Option<B>)>) -> Seq<Field> {
    Seq::new(entries.len(), |i: int| (entries[i].0.chars(), opt_octets(entries[i].1)))
}

/// Headers: each name occurs once and keeps the place of its first insertion.
///
/// `K` is the name type and `B` the value type, so that a request can hold
/// views into its buffer and a response can own its data.
#[derive(Debug)]
pub struct Headers<K: Text, B: Octets> {
    entries: Vec<(K, Option<B>)>,
}

impl<K: Text, B: Octets> View for Headers<K, B> {
    type V = Map<Seq<char>, Option<Seq<u8>>>;

    /// The headers as a mapping from name to optional value.
    open spec fn view(&self) -> Map<Seq<char>, Option<Seq<u8>>> {
        as_map(self.fields())
    }
}

impl<K: Text, B: Octets> Headers<K, B> {
    #[verifier::type_invariant]
    spec fn well_formed(self) -> bool {
        distinct_names(fields_of(self.entries@))
    }

    /// The headers in order, as name and optional value.
    pub closed spec fn fields(&self) -> Seq<Field> {
        fields_of(self.entries@)
    }

    /// No headers.
    pub fn new() -> (h: Self)
        ensures
            h.fields() == Seq::<Field>::empty(),
            h@ == Map::<Seq<char>, Option<Seq<u8>>>::empty(),
    {
        let h = Headers { entries: Vec::new() };
        assert(h.fields() =~= Seq::<Field>::empty());
        h
    }

    /// The number of headers.
    pub fn len(&self) -> (n: usize)
        ensures
            n == self.fields().len(),
            n == self@.dom().len(),
            distinct_names(self.fields()),
    {
        proof {
            use_type_invariant(self);
            lemma_as_map_len(self.fields());
        }
        self.entries.len()
    }

    /// True if there is no header.
    pub fn is_empty(&self) -> (b: bool)
        ensures
            b == (self.fields().len() == 0),
    {
        self.entries.len() == 0
    }

    /// The position of `name`, or `len()` if no header has that name.
    pub fn position(&self, name: &str) -> (p: usize)
        ensures
            p == position_of(self.fields(), name@),
            p <= self.fields().len(),
            p < self.fields().len() <==> self@.contains_key(name@),
            p < self.fields().len() ==> self.fields()[p as int].0 == name@,
    {
        let n: usize = self.entries.len();
        let mut i: usize = 0;
        proof {
            lemma_as_map_keys(self.fields(), name@);
        }
        while i < n
            invariant
                i <= n,
                n == self.entries@.len(),
                forall|j: int| 0 <= j < i ==> self.fields()[j].0 != name@,
                as_map(self.fields()).contains_key(name@) <==> position_of(self.fields(), name@)
                    < self.fields().len(),
            decreases n - i,
        {
            if str_eq(self.entries[i].0.as_text(), name) {
                proof {
                    lemma_position_unique(self.fields(), name@, i as int);
                }
                return i;
            }
            i += 1;
        }
        proof {
            lemma_position_unique(self.fields(), name@, i as int);
        }
        i
    }

    /// True if a header of that name is held.
    pub fn contains_key(&self, name: &str) -> (b: bool)
        ensures
            b == self@.contains_key(name@),
    {
        self.position(name) < self.entries.len()
    }

    /// The value of the header of that name, if one is held.
    pub fn get(&self, name: &str) -> (r: Option<&Option<B>>)
        ensures
            match r {
                Some(v) => self@.contains_key(name@) && opt_octets(*v) == self@[name@],
                None => !self@.contains_key(name@),
            },
    {
        let p = self.position(name);
        if p < self.entries.len() {
            proof {
                use_type_invariant(self);
                lemma_as_map_value(self.fields(), p as int);
            }
            Some(&self.entries[p].1)
        } else {
            None
        }
    }

    /// The name of the header at position `i`.
    pub fn name_at(&self, i: usize) -> (name: &K)
        requires
            i < self.fields().len(),
        ensures
            name.chars() == self.fields()[i as int].0,
    {
        &self.entries[i].0
    }

    /// The value of the header at position `i`.
    pub fn value_at(&self, i: usize) -> (value: &Option<B>)
        requires
            i < self.fields().len(),
        ensures
            opt_octets(*value) == self.fields()[i as int].1,
    {
        &self.entries[i].1
    }

    /// Gives `name` the value `value`. A header of that name keeps its place
    /// and has its value overwritten, and the value it had is returned;
    /// otherwise the header is added at the end.
    pub fn insert(&mut self, name: K, value: Option<B>) -> (prev: Option<Option<B>>)
        ensures
            final(self).fields() == put(old(self).fields(), name.chars(), opt_octets(value)),
            final(self)@ == old(self)@.insert(name.chars(), opt_octets(value)),
            match prev {
                Some(v) => old(self)@.contains_key(name.chars()) && opt_octets(v) == old(self)@[name.chars()],
                None => !old(self)@.contains_key(name.chars()),
            },
    {
        proof {
            use_type_invariant(&*self);
        }
        let ghost before = self.fields();
        let ghost key = name.chars();
        let ghost val = opt_octets(value);
        let p = self.position(name.as_text());
        let mut entries: Vec<(K, Option<B>)> = Vec::new();
        core::mem::swap(&mut self.entries, &mut entries);
        assert(fields_of(entries@) == before);
        let prev = if p < entries.len() {
            proof {
                lemma_as_map_value(before, p as int);
            }
            entries.push((name, value));
            let old = entries.swap_remove(p);
            Some(old.1)
        } else {
            entries.push((name, value));
            None
        };
        proof {
            lemma_put(before, key, val);
            assert(fields_of(entries@) =~= put(before, key, val));
        }
        self.entries = entries;
        prev
    }
}

impl<K: Text, B: Octets> Clone for Headers<K, B> {
    /// The same headers in the same order.
    fn clone(&self) -> (copy: Self)
        ensures
            copy.fields() == self.fields(),
            copy@ == self@,
    {
        proof {
            use_type_invariant(self);
        }
        let n: usize = self.entries.len();
        let mut entries: Vec<(K, Option<B>)> = Vec::new();
        let mut i: usize = 0;
        while i < n
            invariant
                i <= n,
                n == self.entries@.len(),
                entries@.len() == i,
                forall|j: int|
                    0 <= j < i ==> (#[trigger] entries@[j]).0.chars() == self.entries@[j].0.chars()
                        && opt_octets(entries@[j].1) == opt_octets(self.entries@[j].1),
            decreases n - i,
        {
            let name = self.entries[i].0.duplicate();
            let value = duplicate_opt(&self.entries[i].1);
            entries.push((name, value));
            i += 1;
        }
        assert(fields_of(entries@) =~= fields_of(self.entries@));
        Headers { entries }
    }
}

impl<K: Text, B: Octets> Default for Headers<K, B> {
    fn default() -> (h: Self)
        ensures
            h.fields() == Seq::<Field>::empty(),
            h@ == Map::<Seq<char>, Option<Seq<u8>>>::empty(),
    {
        Headers::new()
    }
}

} // verus!
