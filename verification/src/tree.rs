//! The result tree: configuration values under distinct string keys.

use config::Value;
use config::ValueKind;
use vstd::prelude::*;

verus! {

/// A configuration value of the `config` crate. Nothing of its inside is
/// visible here; values are moved, never read.
#[verifier::external_type_specification]
#[verifier::external_body]
pub struct ExValue(Value);

/// The origin annotation that a value carries, if it has one: what
/// `Value::origin` gives.
pub uninterp spec fn value_origin(v: Value) -> Option<Seq<char>>;

/// The entries of a value whose kind is a table, by key; `None` for any
/// other kind.
pub uninterp spec fn value_table(v: Value) -> Option<Map<Seq<char>, Value>>;

/// Whether no two pairs share a key.
pub open spec fn distinct_keys(entries: Seq<(String, Value)>) -> bool {
    forall|i: int, j: int|
        0 <= i < j < entries.len() ==> (#[trigger] entries[i]).0@ != (#[trigger] entries[j]).0@
}

/// The mapping that a sequence of pairs stands for. Where a key occurs more
/// than once, the later pair counts.
pub open spec fn map_of(entries: Seq<(String, Value)>) -> Map<Seq<char>, Value>
    decreases entries.len(),
{
    if entries.len() == 0 {
        Map::empty()
    } else {
        map_of(entries.drop_last()).insert(entries.last().0@, entries.last().1)
    }
}

/// A key is mapped exactly where some pair holds it.
pub proof fn lemma_map_of_domain(entries: Seq<(String, Value)>, key: Seq<char>)
    ensures
        map_of(entries).contains_key(key) <==> exists|i: int|
            0 <= i < entries.len() && (#[trigger] entries[i]).0@ == key,
    decreases entries.len(),
{
    if entries.len() > 0 {
        let front = entries.drop_last();
        lemma_map_of_domain(front, key);
        if map_of(entries).contains_key(key) {
            if entries.last().0@ == key {
                assert(entries[entries.len() - 1].0@ == key);
            } else {
                let i = choose|i: int| 0 <= i < front.len() && (#[trigger] front[i]).0@ == key;
                assert(entries[i].0@ == key);
            }
        }
        if exists|i: int| 0 <= i < entries.len() && (#[trigger] entries[i]).0@ == key {
            let i = choose|i: int| 0 <= i < entries.len() && (#[trigger] entries[i]).0@ == key;
            if i < front.len() {
                assert(front[i].0@ == key);
            }
        }
    }
}

/// With distinct keys, each pair's key is mapped to that pair's value.
pub proof fn lemma_map_of_entry(entries: Seq<(String, Value)>, i: int)
    requires
        distinct_keys(entries),
        0 <= i < entries.len(),
    ensures
        map_of(entries).contains_key(entries[i].0@),
        map_of(entries)[entries[i].0@] == entries[i].1,
    decreases entries.len(),
{
    let front = entries.drop_last();
    if i < entries.len() - 1 {
        assert(distinct_keys(front)) by {
            assert forall|a: int, b: int| 0 <= a < b < front.len() implies (#[trigger] front[a]).0@
                != (#[trigger] front[b]).0@ by {
                assert(entries[a].0@ != entries[b].0@);
            }
        }
        lemma_map_of_entry(front, i);
        assert(front[i] == entries[i]);
        assert(entries[i].0@ != entries[entries.len() - 1].0@);
    }
}

/// With distinct keys, putting a new value where a key already stands is an
/// insertion into the mapping.
proof fn lemma_map_of_update(entries: Seq<(String, Value)>, i: int, key: String, value: Value)
    requires
        distinct_keys(entries),
        0 <= i < entries.len(),
        entries[i].0@ == key@,
    ensures
        distinct_keys(entries.update(i, (key, value))),
        map_of(entries.update(i, (key, value))) == map_of(entries).insert(key@, value),
    decreases entries.len(),
{
    let after = entries.update(i, (key, value));
    assert(distinct_keys(after)) by {
        assert forall|a: int, b: int| 0 <= a < b < after.len() implies (#[trigger] after[a]).0@
            != (#[trigger] after[b]).0@ by {
            assert(entries[a].0@ != entries[b].0@);
        }
    }
    let front = entries.drop_last();
    if i == entries.len() - 1 {
        assert(after.drop_last() =~= front);
        assert(map_of(after) =~= map_of(entries).insert(key@, value));
    } else {
        assert(distinct_keys(front)) by {
            assert forall|a: int, b: int| 0 <= a < b < front.len() implies (#[trigger] front[a]).0@
                != (#[trigger] front[b]).0@ by {
                assert(entries[a].0@ != entries[b].0@);
            }
        }
        lemma_map_of_update(front, i, key, value);
        assert(after.drop_last() =~= front.update(i, (key, value)));
        assert(after.last() == entries.last());
        assert(entries[i].0@ != entries[entries.len() - 1].0@);
        assert(map_of(after) =~= map_of(entries).insert(key@, value));
    }
}

/// A mapping from string keys to configuration values.
#[derive(Debug)]
pub struct Tree {
    entries: Vec<(String, Value)>,
}

impl View for Tree {
    type V = Map<Seq<char>, Value>;

    closed spec fn view(&self) -> Map<Seq<char>, Value> {
        map_of(self.entries@)
    }
}

impl Tree {
    #[verifier::type_invariant]
    spec fn keys_are_distinct(&self) -> bool {
        distinct_keys(self.entries@)
    }

    /// The empty tree.
    pub fn new() -> (r: Self)
        ensures
            r@ == Map::<Seq<char>, Value>::empty(),
    {
        Tree { entries: Vec::new() }
    }

    /// The index at which `key` stands, if it is present.
    fn position(&self, key: &String) -> (r: Option<usize>)
        ensures
            match r {
                Some(i) => i < self.entries.len() && self.entries[i as int].0@ == key@,
                None => forall|i: int| 0 <= i < self.entries.len() ==> (
                #[trigger] self.entries[i]).0@ != key@,
            },
    {
        let mut i: usize = 0;
        while i < self.entries.len()
            invariant
                i <= self.entries.len(),
                forall|j: int| 0 <= j < i ==> (#[trigger] self.entries[j]).0@ != key@,
            decreases self.entries.len() - i,
        {
            if self.entries[i].0 == *key {
                return Some(i);
            }
            i += 1;
        }
        None
    }

    /// Whether `key` is present.
    pub fn contains_key(&self, key: &str) -> (r: bool)
        ensures
            r == self@.contains_key(key@),
    {
        let owned = key.to_owned();
        let found = self.position(&owned);
        proof {
            lemma_map_of_domain(self.entries@, key@);
        }
        found.is_some()
    }

    /// The value under `key`, if it is present.
    pub fn get(&self, key: &str) -> (r: Option<&Value>)
        ensures
            match r {
                Some(v) => self@.contains_key(key@) && self@[key@] == *v,
                None => !self@.contains_key(key@),
            },
    {
        let owned = key.to_owned();
        proof {
            use_type_invariant(self);
            lemma_map_of_domain(self.entries@, key@);
        }
        match self.position(&owned) {
            Some(i) => {
                proof {
                    lemma_map_of_entry(self.entries@, i as int);
                }
                Some(&self.entries[i].1)
            },
            None => None,
        }
    }

    /// Puts `value` under `key`, in place of what stood there.
    pub fn insert(&mut self, key: String, value: Value)
        ensures
            final(self)@ == old(self)@.insert(key@, value),
    {
        proof {
            use_type_invariant(&*self);
        }
        let found = self.position(&key);
        let mut taken = Tree::new();
        core::mem::swap(self, &mut taken);
        let mut entries = taken.entries;
        match found {
            Some(i) => {
                proof {
                    lemma_map_of_update(entries@, i as int, key, value);
                }
                entries[i] = (key, value);
            },
            None => {
                let ghost before = entries@;
                entries.push((key, value));
                assert(entries@.drop_last() =~= before);
            },
        }
        *self = Tree { entries };
    }

    /// Puts every entry of `other` into the tree; where both hold a key, the
    /// value of `other` stays.
    pub fn merge(&mut self, other: Tree)
        ensures
            final(self)@ == old(self)@.union_prefer_right(other@),
    {
        proof {
            use_type_invariant(&other);
        }
        let mut rest = other.entries;
        loop
            invariant_except_break
                distinct_keys(rest@),
                self@.union_prefer_right(map_of(rest@)) == old(self)@.union_prefer_right(other@),
            ensures
                self@ == old(self)@.union_prefer_right(other@),
            decreases rest.len(),
        {
            let ghost before = rest@;
            match rest.pop() {
                Some((key, value)) => {
                    proof {
                        lemma_map_of_domain(rest@, key@);
                        if map_of(rest@).contains_key(key@) {
                            let i = choose|i: int|
                                0 <= i < rest@.len() && (#[trigger] rest@[i]).0@ == key@;
                            assert(before[i].0@ == before[before.len() - 1].0@);
                        }
                        assert(distinct_keys(rest@)) by {
                            assert forall|a: int, b: int| 0 <= a < b < rest@.len() implies (
                            #[trigger] rest@[a]).0@ != (#[trigger] rest@[b]).0@ by {
                                assert(before[a].0@ != before[b].0@);
                            }
                        }
                        assert(rest@ =~= before.drop_last());
                    }
                    let ghost was = self@;
                    self.insert(key, value);
                    assert(self@.union_prefer_right(map_of(rest@)) =~= was.union_prefer_right(
                        map_of(before),
                    ));
                },
                None => {
                    assert(self@.union_prefer_right(map_of(rest@)) =~= self@);
                    break ;
                },
            }
        }
    }

    /// The entries as pairs, each key once.
    pub fn into_entries(self) -> (r: Vec<(String, Value)>)
        ensures
            distinct_keys(r@),
            map_of(r@) == self@,
    {
        proof {
            use_type_invariant(&self);
        }
        self.entries
    }
}

/// Calls `config::Value::new` with `origin` and with a table kind made of
/// the entries of `table`. Believed, not proved: the value that comes back
/// carries `origin` as its origin annotation and is a table of exactly those
/// entries.
#[verifier::external_body]
pub(crate) fn tagged_table(origin: &String, table: Tree) -> (v: Value)
    ensures
        value_origin(v) == Some(origin@),
        value_table(v) == Some(table@),
{
    Value::new(Some(origin), ValueKind::Table(table.entries.into_iter().collect()))
}

} // verus!
