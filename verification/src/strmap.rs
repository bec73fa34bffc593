//! A map keyed by strings, kept as the list of its insertions.

use vstd::prelude::*;
use crate::chars::str_eq;

verus! {

/// A map from names to values.
///
/// The map is stored as the sequence of insertions made into it; a later
/// insertion of a name hides every earlier one, so the mapping it denotes is
/// "last write wins".
#[derive(Debug)]
pub struct StrMap<V> {
    pub entries: Vec<(String, V)>,
}

/// The mapping denoted by a sequence of insertions.
pub open spec fn entries_map<V>(s: Seq<(String, V)>) -> Map<Seq<char>, V>
    decreases s.len(),
{
    if s.len() == 0 {
        Map::empty()
    } else {
        entries_map(s.drop_last()).insert(s.last().0@, s.last().1)
    }
}

/// A name that no entry from position `from` on carries is looked up in
/// the entries before `from` alone.
proof fn lemma_lookup_skips_other_names<V>(s: Seq<(String, V)>, from: int, key: Seq<char>)
    requires
        0 <= from <= s.len(),
        forall|j: int| from <= j < s.len() ==> (#[trigger] s[j]).0@ != key,
    ensures
        entries_map(s).dom().contains(key) == entries_map(s.take(from)).dom().contains(key),
        entries_map(s).dom().contains(key) ==> entries_map(s)[key] == entries_map(s.take(from))[key],
    decreases s.len() - from,
{
    if from == s.len() {
        assert(s.take(from) =~= s);
    } else {
        let t = s.drop_last();
        assert(t.take(from) =~= s.take(from));
        lemma_lookup_skips_other_names(t, from, key);
    }
}

/// Whether the insertion at position `i` is the last one of its name, so
/// that it is the one that counts.
pub open spec fn is_live<V>(s: Seq<(String, V)>, i: int) -> bool {
    forall|j: int| i < j < s.len() ==> (#[trigger] s[j]).0@ != s[i].0@
}

impl<V> View for StrMap<V> {
    type V = Map<Seq<char>, V>;

    open spec fn view(&self) -> Map<Seq<char>, V> {
        entries_map(self.entries@)
    }
}

impl<V> StrMap<V> {
    /// The empty map.
    pub fn new() -> (m: Self)
        ensures
            m@ == Map::<Seq<char>, V>::empty(),
            m.entries@ == Seq::<(String, V)>::empty(),
    {
        StrMap { entries: Vec::new() }
    }

    /// Binds `key` to `value`, replacing what `key` was bound to before.
    /// The insertion is recorded after those made so far.
    pub fn insert(&mut self, key: String, value: V)
        ensures
            final(self)@ == old(self)@.insert(key@, value),
            final(self).entries@ == old(self).entries@.push((key, value)),
    {
        self.entries.push((key, value));
        assert(self.entries@.drop_last() =~= old(self).entries@);
    }

    /// Whether the insertion at position `i` is the last one of its name.
    pub(crate) fn counts(&self, i: usize) -> (r: bool)
        requires
            i < self.entries@.len(),
        ensures
            r == is_live(self.entries@, i as int),
    {
        let n: usize = self.entries.len();
        let mut j: usize = i + 1;
        while j < n
            invariant
                n == self.entries@.len(),
                i < j <= n,
                forall|k: int| i < k < j ==> (#[trigger] self.entries@[k]).0@ != self.entries@[i as int].0@,
            decreases n - j,
        {
            if str_eq(self.entries[j].0.as_str(), self.entries[i].0.as_str()) {
                return false;
            }
            j += 1;
        }
        true
    }

    /// The value bound to `key`, if there is one.
    pub fn get(&self, key: &str) -> (r: Option<&V>)
        ensures
            r is Some <==> self@.dom().contains(key@),
            r matches Some(v) ==> *v == self@[key@],
    {
        let mut i: usize = self.entries.len();
        while i > 0
            invariant
                i <= self.entries.len(),
                forall|j: int| i <= j < self.entries.len() ==> (#[trigger] self.entries@[j]).0@ != key@,
            decreases i,
        {
            i -= 1;
            if str_eq(self.entries[i].0.as_str(), key) {
                proof {
                    let s = self.entries@;
                    lemma_lookup_skips_other_names(s, i + 1, key@);
                    assert(s.take(i + 1).drop_last() =~= s.take(i as int));
                }
                return Some(&self.entries[i].1);
            }
        }
        proof {
            lemma_lookup_skips_other_names(self.entries@, 0, key@);
        }
        None
    }
}

} // verus!
