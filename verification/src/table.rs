//! A map from text, kept in the order of its keys.

use crate::text;
use vstd::prelude::*;

verus! {

/// The map that `pairs` make when they are put in one after the other: of
/// two with one key, the later stays.
pub open spec fn gathered<V>(pairs: Seq<(Seq<char>, V)>) -> Map<Seq<char>, V>
    decreases pairs.len(),
{
    if pairs.len() == 0 {
        Map::empty()
    } else {
        gathered(pairs.drop_last()).insert(pairs.last().0, pairs.last().1)
    }
}

/// Whether no two pairs have one key.
pub open spec fn keys_differ<V>(pairs: Seq<(Seq<char>, V)>) -> bool {
    forall|i: int, j: int|
        0 <= i < j < pairs.len() ==> (#[trigger] pairs[i]).0 != (#[trigger] pairs[j]).0
}

/// Whether the keys of `pairs` ascend.
pub open spec fn keys_ascend<V>(pairs: Seq<(Seq<char>, V)>) -> bool {
    forall|i: int, j: int|
        0 <= i < j < pairs.len() ==> text::precedes(
            (#[trigger] pairs[i]).0,
            (#[trigger] pairs[j]).0,
        )
}

/// A gathered map holds the keys of its pairs and no others, and has as
/// many entries as pairs where these differ.
pub proof fn lemma_gathered_keys<V>(pairs: Seq<(Seq<char>, V)>)
    ensures
        gathered(pairs).dom().finite(),
        forall|i: int| 0 <= i < pairs.len() ==> gathered(pairs).contains_key((#[trigger] pairs[i]).0),
        forall|key: Seq<char>| #[trigger]
            gathered(pairs).contains_key(key) ==> exists|i: int|
                0 <= i < pairs.len() && (#[trigger] pairs[i]).0 == key,
        keys_differ(pairs) ==> gathered(pairs).dom().len() == pairs.len(),
    decreases pairs.len(),
{
    if pairs.len() > 0 {
        let fewer = pairs.drop_last();
        lemma_gathered_keys(fewer);
        assert forall|i: int| 0 <= i < pairs.len() implies gathered(pairs).contains_key(
            (#[trigger] pairs[i]).0,
        ) by {
            if i < fewer.len() {
                assert(fewer[i] == pairs[i]);
            }
        }
        assert forall|key: Seq<char>| #[trigger] gathered(pairs).contains_key(key) implies exists|i: int|
            0 <= i < pairs.len() && (#[trigger] pairs[i]).0 == key by {
            if key == pairs.last().0 {
                assert(pairs[pairs.len() - 1].0 == key);
            } else {
                assert(gathered(fewer).contains_key(key));
                let i = choose|i: int| 0 <= i < fewer.len() && (#[trigger] fewer[i]).0 == key;
                assert(pairs[i].0 == key);
            }
        }
        if keys_differ(pairs) {
            assert(keys_differ(fewer)) by {
                assert forall|i: int, j: int| 0 <= i < j < fewer.len() implies (#[trigger] fewer[i]).0
                    != (#[trigger] fewer[j]).0 by {
                    assert(pairs[i] == fewer[i] && pairs[j] == fewer[j]);
                }
            }
            assert(!gathered(fewer).contains_key(pairs.last().0)) by {
                if gathered(fewer).contains_key(pairs.last().0) {
                    let i = choose|i: int|
                        0 <= i < fewer.len() && (#[trigger] fewer[i]).0 == pairs.last().0;
                    assert(pairs[i] == fewer[i]);
                    assert(pairs[pairs.len() - 1] == pairs.last());
                }
            }
        }
    }
}

/// Where no two pairs have one key, each is in the map they make.
pub proof fn lemma_gathered_values<V>(pairs: Seq<(Seq<char>, V)>)
    requires
        keys_differ(pairs),
    ensures
        forall|i: int|
            0 <= i < pairs.len() ==> gathered(pairs)[(#[trigger] pairs[i]).0] == pairs[i].1,
    decreases pairs.len(),
{
    if pairs.len() > 0 {
        let fewer = pairs.drop_last();
        assert forall|i: int, j: int| 0 <= i < j < fewer.len() implies (#[trigger] fewer[i]).0 != (
        #[trigger] fewer[j]).0 by {
            assert(pairs[i] == fewer[i] && pairs[j] == fewer[j]);
        }
        lemma_gathered_values(fewer);
        assert forall|i: int| 0 <= i < pairs.len() implies gathered(pairs)[(#[trigger] pairs[i]).0]
            == pairs[i].1 by {
            if i < fewer.len() {
                assert(fewer[i] == pairs[i]);
                assert(pairs[pairs.len() - 1] == pairs.last());
            }
        }
    }
}

/// Keys that ascend differ.
pub proof fn lemma_ascending_differ<V>(pairs: Seq<(Seq<char>, V)>)
    requires
        keys_ascend(pairs),
    ensures
        keys_differ(pairs),
{
    assert forall|i: int, j: int| 0 <= i < j < pairs.len() implies (#[trigger] pairs[i]).0 != (
    #[trigger] pairs[j]).0 by {
        text::lemma_precedes_irreflexive(pairs[i].0);
    }
}

/// Pairs with keys that differ make the map that holds them and nothing
/// else.
pub proof fn lemma_gathered_is<V>(pairs: Seq<(Seq<char>, V)>, map: Map<Seq<char>, V>)
    requires
        keys_differ(pairs),
        forall|i: int|
            0 <= i < pairs.len() ==> {
                &&& map.contains_key((#[trigger] pairs[i]).0)
                &&& map[pairs[i].0] == pairs[i].1
            },
        forall|key: Seq<char>| #[trigger]
            map.contains_key(key) ==> exists|i: int|
                0 <= i < pairs.len() && (#[trigger] pairs[i]).0 == key,
    ensures
        gathered(pairs) == map,
{
    lemma_gathered_keys(pairs);
    lemma_gathered_values(pairs);
    assert forall|key: Seq<char>| gathered(pairs).contains_key(key) == map.contains_key(key) by {}
    assert forall|key: Seq<char>| map.contains_key(key) implies gathered(pairs)[key] == map[key] by {
        let i = choose|i: int| 0 <= i < pairs.len() && (#[trigger] pairs[i]).0 == key;
        assert(gathered(pairs)[pairs[i].0] == pairs[i].1);
    }
    assert(gathered(pairs) =~= map);
}

/// What another value at the place of `key` makes of ascending pairs.
proof fn lemma_replaced<V>(pairs: Seq<(Seq<char>, V)>, at: int, key: Seq<char>, value: V)
    requires
        keys_ascend(pairs),
        0 <= at < pairs.len(),
        pairs[at].0 == key,
    ensures
        keys_ascend(pairs.update(at, (key, value))),
        gathered(pairs.update(at, (key, value))) == gathered(pairs).insert(key, value),
{
    let now = pairs.update(at, (key, value));
    let map = gathered(pairs).insert(key, value);
    lemma_ascending_differ(pairs);
    lemma_gathered_keys(pairs);
    lemma_gathered_values(pairs);
    assert forall|i: int, j: int| 0 <= i < j < now.len() implies text::precedes(
        (#[trigger] now[i]).0,
        (#[trigger] now[j]).0,
    ) by {
        assert(now[i].0 == pairs[i].0 && now[j].0 == pairs[j].0);
    }
    lemma_ascending_differ(now);
    assert forall|i: int| 0 <= i < now.len() implies {
        &&& map.contains_key((#[trigger] now[i]).0)
        &&& map[now[i].0] == now[i].1
    } by {
        assert(gathered(pairs).contains_key(pairs[i].0));
        assert(now[i].0 == pairs[i].0);
        if i != at {
            assert(now[i].0 != now[at].0);
        }
    }
    assert forall|k: Seq<char>| #[trigger] map.contains_key(k) implies exists|i: int|
        0 <= i < now.len() && (#[trigger] now[i]).0 == k by {
        if k == key {
            assert(now[at].0 == k);
        } else {
            assert(gathered(pairs).contains_key(k));
            let i = choose|i: int| 0 <= i < pairs.len() && (#[trigger] pairs[i]).0 == k;
            assert(now[i].0 == k);
        }
    }
    lemma_gathered_is(now, map);
}

/// What a new key at its place makes of ascending pairs.
proof fn lemma_placed<V>(pairs: Seq<(Seq<char>, V)>, at: int, key: Seq<char>, value: V)
    requires
        keys_ascend(pairs),
        0 <= at <= pairs.len(),
        forall|j: int| 0 <= j < at ==> text::precedes((#[trigger] pairs[j]).0, key),
        forall|j: int| at <= j < pairs.len() ==> text::precedes(key, (#[trigger] pairs[j]).0),
    ensures
        keys_ascend(pairs.insert(at, (key, value))),
        gathered(pairs.insert(at, (key, value))) == gathered(pairs).insert(key, value),
{
    let now = pairs.insert(at, (key, value));
    let map = gathered(pairs).insert(key, value);
    lemma_ascending_differ(pairs);
    lemma_gathered_keys(pairs);
    lemma_gathered_values(pairs);
    assert forall|i: int, j: int| 0 <= i < j < now.len() implies text::precedes(
        (#[trigger] now[i]).0,
        (#[trigger] now[j]).0,
    ) by {
        if i < at {
            assert(now[i] == pairs[i]);
        } else if i > at {
            assert(now[i] == pairs[i - 1]);
        }
        if j < at {
            assert(now[j] == pairs[j]);
        } else if j > at {
            assert(now[j] == pairs[j - 1]);
        }
    }
    lemma_ascending_differ(now);
    assert forall|i: int| 0 <= i < now.len() implies {
        &&& map.contains_key((#[trigger] now[i]).0)
        &&& map[now[i].0] == now[i].1
    } by {
        if i != at {
            assert(now[i].0 != now[at].0);
            let p = if i < at { i } else { i - 1 };
            assert(now[i] == pairs[p]);
            assert(gathered(pairs).contains_key(pairs[p].0));
        }
    }
    assert forall|k: Seq<char>| #[trigger] map.contains_key(k) implies exists|i: int|
        0 <= i < now.len() && (#[trigger] now[i]).0 == k by {
        if k == key {
            assert(now[at].0 == k);
        } else {
            assert(gathered(pairs).contains_key(k));
            let p = choose|p: int| 0 <= p < pairs.len() && (#[trigger] pairs[p]).0 == k;
            assert(now[if p < at { p } else { p + 1 }].0 == k);
        }
    }
    lemma_gathered_is(now, map);
}

/// A map from text, its entries in the order of their keys.
pub struct Table<V> {
    entries: Vec<(String, V)>,
}

/// An entry of a table, its key as the characters it is made of.
pub open spec fn paired<V>(entry: (String, V)) -> (Seq<char>, V) {
    (entry.0@, entry.1)
}

impl<V> View for Table<V> {
    type V = Map<Seq<char>, V>;

    closed spec fn view(&self) -> Map<Seq<char>, V> {
        gathered(self.pairs())
    }
}

impl<V> Table<V> {
    /// The entries, first to last.
    pub closed spec fn pairs(self) -> Seq<(Seq<char>, V)> {
        self.entries@.map_values(|entry: (String, V)| paired(entry))
    }

    /// The keys ascend, so that none occurs twice.
    pub open spec fn ordered(self) -> bool {
        keys_ascend(self.pairs())
    }

    /// What the entries of a table say of the map it is.
    pub proof fn lemma_entries(self)
        requires
            self.ordered(),
        ensures
            self@ == gathered(self.pairs()),
            self@.dom().finite(),
            self@.dom().len() == self.pairs().len(),
            forall|i: int|
                0 <= i < self.pairs().len() ==> {
                    &&& self@.contains_key((#[trigger] self.pairs()[i]).0)
                    &&& self@[self.pairs()[i].0] == self.pairs()[i].1
                },
            forall|key: Seq<char>| #[trigger]
                self@.contains_key(key) ==> exists|i: int|
                    0 <= i < self.pairs().len() && (#[trigger] self.pairs()[i]).0 == key,
            keys_differ(self.pairs()),
    {
        lemma_ascending_differ(self.pairs());
        lemma_gathered_keys(self.pairs());
        lemma_gathered_values(self.pairs());
    }

    /// A table with nothing in it.
    pub fn new() -> (table: Self)
        ensures
            table.ordered(),
            table@ == Map::<Seq<char>, V>::empty(),
    {
        Table { entries: Vec::new() }
    }

    /// How many entries there are.
    pub fn len(&self) -> (count: usize)
        requires
            self.ordered(),
        ensures
            count == self.pairs().len(),
            count == self@.dom().len(),
            self@.dom().finite(),
    {
        proof {
            self.lemma_entries();
        }
        self.entries.len()
    }

    /// Whether there is no entry.
    pub fn is_empty(&self) -> (yes: bool)
        requires
            self.ordered(),
        ensures
            yes == (self@ == Map::<Seq<char>, V>::empty()),
    {
        proof {
            self.lemma_entries();
            if self.entries.len() == 0 {
                assert(self@ == Map::<Seq<char>, V>::empty());
            } else {
                assert(self@.contains_key(self.pairs()[0].0));
            }
        }
        self.entries.len() == 0
    }

    /// The entry at `index`, counted in the order of the keys.
    pub fn entry(&self, index: usize) -> (entry: (&String, &V))
        requires
            index < self.pairs().len(),
        ensures
            (entry.0@, *entry.1) == self.pairs()[index as int],
    {
        (&self.entries[index].0, &self.entries[index].1)
    }

    /// Where `key` stands, or where it would.
    fn position(&self, key: &str) -> (place: Result<usize, usize>)
        requires
            self.ordered(),
        ensures
            match place {
                Ok(i) => i < self.pairs().len() && self.pairs()[i as int].0 == key@,
                Err(i) => {
                    &&& i <= self.pairs().len()
                    &&& forall|j: int|
                        0 <= j < i ==> text::precedes((#[trigger] self.pairs()[j]).0, key@)
                    &&& forall|j: int|
                        i <= j < self.pairs().len() ==> text::precedes(
                            key@,
                            (#[trigger] self.pairs()[j]).0,
                        )
                },
            },
    {
        let mut i: usize = 0;
        while i < self.entries.len()
            invariant
                self.ordered(),
                i <= self.entries.len() == self.pairs().len(),
                forall|j: int| 0 <= j < i ==> text::precedes((#[trigger] self.pairs()[j]).0, key@),
            decreases self.entries.len() - i,
        {
            let there = self.entries[i].0.as_str();
            assert(self.pairs()[i as int].0 == there@);
            if text::same(there, key) {
                return Ok(i);
            }
            if !text::comes_before(there, key) {
                proof {
                    text::lemma_precedes_total(there@, key@);
                    assert forall|j: int| i <= j < self.pairs().len() implies text::precedes(
                        key@,
                        (#[trigger] self.pairs()[j]).0,
                    ) by {
                        if j > i {
                            text::lemma_precedes_transitive(key@, there@, self.pairs()[j].0);
                        }
                    }
                }
                return Err(i);
            }
            i = i + 1;
        }
        Err(i)
    }

    /// What stands under `key`, where anything does.
    pub fn get(&self, key: &str) -> (value: Option<&V>)
        requires
            self.ordered(),
        ensures
            match value {
                Some(value) => self@.contains_key(key@) && *value == self@[key@],
                None => !self@.contains_key(key@),
            },
    {
        proof {
            self.lemma_entries();
        }
        match self.position(key) {
            Ok(i) => Some(&self.entries[i].1),
            Err(i) => {
                proof {
                    text::lemma_precedes_irreflexive(key@);
                }
                None
            },
        }
    }

    /// Put `value` under `key`, in place of what stood there.
    pub fn insert(&mut self, key: String, value: V)
        requires
            old(self).ordered(),
        ensures
            final(self).ordered(),
            final(self)@ == old(self)@.insert(key@, value),
    {
        let ghost before = self.pairs();
        match self.position(key.as_str()) {
            Ok(i) => {
                self.entries[i].1 = value;
                proof {
                    assert(self.pairs() == before.update(i as int, (key@, value)));
                    lemma_replaced(before, i as int, key@, value);
                }
            },
            Err(i) => {
                let ghost name = key@;
                self.entries.insert(i, (key, value));
                proof {
                    assert(self.pairs() == before.insert(i as int, (name, value)));
                    lemma_placed(before, i as int, name, value);
                }
            },
        }
    }

    /// What stands under `key`, to be changed in place: `value`, where
    /// nothing stood there before.
    pub fn slot(&mut self, key: String, value: V) -> (place: &mut V)
        requires
            old(self).ordered(),
        ensures
            *place == (if old(self)@.contains_key(key@) {
                old(self)@[key@]
            } else {
                value
            }),
            final(self).ordered(),
            final(self)@ == old(self)@.insert(key@, *final(place)),
    {
        let ghost before = self.pairs();
        let ghost name = key@;
        proof {
            self.lemma_entries();
            text::lemma_precedes_irreflexive(name);
        }
        let at: usize = match self.position(key.as_str()) {
            Ok(i) => i,
            Err(i) => {
                self.entries.insert(i, (key, value));
                proof {
                    assert(self.pairs() == before.insert(i as int, (name, value)));
                    lemma_placed(before, i as int, name, value);
                }
                i
            },
        };
        let ghost now = self.pairs();
        proof {
            assert forall|v: V| {
                &&& keys_ascend(#[trigger] now.update(at as int, (name, v)))
                &&& gathered(now.update(at as int, (name, v))) == gathered(before).insert(name, v)
            } by {
                lemma_replaced(now, at as int, name, v);
                assert(gathered(now).insert(name, v) == gathered(before).insert(name, v));
            }
        }
        let place = &mut self.entries[at].1;
        assert(after_borrow(self).pairs() == now.update(at as int, (name, *final(place))));
        place
    }
}

} // verus!
