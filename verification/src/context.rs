//! Contexts: ordered maps from keys to metadata.

use vstd::prelude::*;
use crate::key::ContextKey;

verus! {

/// An ordered map from keys to metadata. A lookup does not depend on the
/// order of the entries; the order is that of insertion and is what a walk
/// over the entries follows.
#[derive(Debug, PartialEq, Eq)]
pub struct Context<M> {
    pub entries: Vec<(ContextKey, M)>,
}

/// The entries of a context as pairs of plain values.
pub type Entries<V> = Seq<(Seq<Seq<char>>, V)>;

/// Whether some entry has the key.
pub open spec fn has_key<V>(entries: Entries<V>, key: Seq<Seq<char>>) -> bool {
    exists|i: int| 0 <= i < entries.len() && (#[trigger] entries[i]).0 == key
}

/// The place of the first entry with the key; meaningful where there is one.
pub open spec fn position<V>(entries: Entries<V>, key: Seq<Seq<char>>) -> int {
    choose|i: int|
        0 <= i < entries.len() && (#[trigger] entries[i]).0 == key && forall|j: int|
            0 <= j < i ==> (#[trigger] entries[j]).0 != key
}

/// What the key is mapped to: the value of the first entry that has it.
pub open spec fn lookup<V>(entries: Entries<V>, key: Seq<Seq<char>>) -> Option<V> {
    if has_key(entries, key) {
        Some(entries[position(entries, key)].1)
    } else {
        None
    }
}

/// The entries after `key` is set to `value`: the first entry with the key
/// gets the value and keeps its place, and a new key goes to the end.
pub open spec fn put<V>(entries: Entries<V>, key: Seq<Seq<char>>, value: V) -> Entries<V> {
    if has_key(entries, key) {
        entries.update(position(entries, key), (key, value))
    } else {
        entries.push((key, value))
    }
}

/// The entries of `base` after each entry of `more` is put into it in turn.
pub open spec fn merged<V>(base: Entries<V>, more: Entries<V>) -> Entries<V>
    decreases more.len(),
{
    if more.len() == 0 {
        base
    } else {
        put(merged(base, more.drop_last()), more.last().0, more.last().1)
    }
}

/// Where `i` is the first place at which the key stands, it is its position.
pub proof fn lemma_position<V>(entries: Entries<V>, key: Seq<Seq<char>>, i: int)
    requires
        0 <= i < entries.len(),
        entries[i].0 == key,
        forall|j: int| 0 <= j < i ==> (#[trigger] entries[j]).0 != key,
    ensures
        has_key(entries, key),
        position(entries, key) == i,
{
    let p = position(entries, key);
    assert(0 <= p < entries.len() && entries[p].0 == key && forall|j: int|
        0 <= j < p ==> (#[trigger] entries[j]).0 != key);
    if p < i {
        assert(entries[p].0 != key);
    }
    if i < p {
        assert(entries[i].0 != key);
    }
}

/// At or before a place at which the key stands there is a first such place.
proof fn lemma_first_place<V>(entries: Entries<V>, key: Seq<Seq<char>>, place: int) -> (first: int)
    requires
        0 <= place < entries.len(),
        entries[place].0 == key,
    ensures
        0 <= first <= place,
        entries[first].0 == key,
        forall|j: int| 0 <= j < first ==> (#[trigger] entries[j]).0 != key,
    decreases place,
{
    if exists|j: int| 0 <= j < place && (#[trigger] entries[j]).0 == key {
        let j = choose|j: int| 0 <= j < place && (#[trigger] entries[j]).0 == key;
        lemma_first_place(entries, key, j)
    } else {
        place
    }
}

/// Where some entry has the key, its position is the place of an entry
/// that has it.
pub proof fn lemma_has_position<V>(entries: Entries<V>, key: Seq<Seq<char>>)
    requires
        has_key(entries, key),
    ensures
        0 <= position(entries, key) < entries.len(),
        entries[position(entries, key)].0 == key,
{
    let place = choose|i: int| 0 <= i < entries.len() && (#[trigger] entries[i]).0 == key;
    let first = lemma_first_place(entries, key, place);
    lemma_position(entries, key, first);
}

impl<M: View> View for Context<M> {
    type V = Entries<M::V>;

    open spec fn view(&self) -> Entries<M::V> {
        Seq::new(self.entries@.len(), |i: int| (self.entries@[i].0@, self.entries@[i].1@))
    }
}

impl<M: View> Context<M> {
    /// What the context holds under the key: the value of the first entry
    /// that has it. It is meaningful where there is one.
    pub open spec fn stored(self, key: Seq<Seq<char>>) -> M {
        self.entries@[position(self@, key)].1
    }

    /// The context without entries.
    pub fn new() -> (context: Context<M>)
        ensures
            context@ == Seq::<(Seq<Seq<char>>, M::V)>::empty(),
    {
        let context = Context { entries: Vec::new() };
        assert(context@ =~= Seq::<(Seq<Seq<char>>, M::V)>::empty());
        context
    }

    /// The number of entries.
    pub fn len(&self) -> (n: usize)
        ensures
            n == self@.len(),
    {
        self.entries.len()
    }

    /// The place of the first entry with the key, if there is one.
    fn find(&self, key: &ContextKey) -> (place: Option<usize>)
        ensures
            match place {
                Some(i) => has_key(self@, key@) && i == position(self@, key@) && i < self@.len(),
                None => !has_key(self@, key@),
            },
    {
        let mut i: usize = 0;
        while i < self.entries.len()
            invariant
                i <= self.entries.len(),
                forall|j: int| 0 <= j < i ==> (#[trigger] self@[j]).0 != key@,
            decreases self.entries.len() - i,
        {
            if self.entries[i].0.eq(key) {
                proof {
                    assert(self@[i as int].0 == key@);
                    lemma_position(self@, key@, i as int);
                }
                return Some(i);
            }
            i += 1;
        }
        None
    }

    /// What the key is mapped to.
    pub fn get(&self, key: &ContextKey) -> (found: Option<&M>)
        ensures
            match found {
                Some(meta) => lookup(self@, key@) == Some(meta@) && *meta == self.stored(key@),
                None => lookup(self@, key@).is_none(),
            },
    {
        match self.find(key) {
            Some(i) => {
                assert(self@[i as int].1 == self.entries@[i as int].1@);
                Some(&self.entries[i].1)
            },
            None => None,
        }
    }

    /// Maps the key to the value. A key that is present keeps its place.
    pub fn insert(&mut self, key: ContextKey, value: M)
        ensures
            final(self)@ == put(old(self)@, key@, value@),
    {
        match self.find(&key) {
            Some(i) => {
                self.entries.set(i, (key, value));
                assert(self@ =~= put(old(self)@, key@, value@));
            },
            None => {
                self.entries.push((key, value));
                assert(self@ =~= put(old(self)@, key@, value@));
            },
        }
    }

    /// Puts each entry of `more` into this context, in the order of `more`.
    pub fn extend(&mut self, more: Context<M>)
        ensures
            final(self)@ == merged(old(self)@, more@),
    {
        let mut more = more;
        let ghost all = more@;
        let mut rest: Vec<(ContextKey, M)> = Vec::new();
        // Take the entries from the end, then put them in from the front.
        while more.entries.len() > 0
            invariant
                more@.len() + rest@.len() == all.len(),
                forall|j: int| 0 <= j < more@.len() ==> more@[j] == all[j],
                forall|j: int|
                    0 <= j < rest@.len() ==> (rest@[j].0@, rest@[j].1@) == all[all.len() - 1 - j],
            decreases more.entries.len(),
        {
            let ghost before = more@;
            let entry = more.entries.pop().unwrap();
            assert(before[before.len() - 1] == (entry.0@, entry.1@));
            rest.push(entry);
        }
        let mut done: Ghost<int> = Ghost(0);
        while rest.len() > 0
            invariant
                0 <= done@ <= all.len(),
                rest@.len() == all.len() - done@,
                forall|j: int|
                    0 <= j < rest@.len() ==> (rest@[j].0@, rest@[j].1@) == all[all.len() - 1 - j],
                self@ == merged(old(self)@, all.take(done@)),
            decreases rest.len(),
        {
            let entry = rest.pop().unwrap();
            let ghost next = all.take(done@ + 1);
            proof {
                assert(next.drop_last() =~= all.take(done@));
                assert(next.last() == (entry.0@, entry.1@));
            }
            self.insert(entry.0, entry.1);
            proof {
                done@ = done@ + 1;
            }
        }
        proof {
            assert(all.take(done@) =~= all);
        }
    }
}

} // verus!
