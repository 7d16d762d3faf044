//! An ordered key/value table with string keys, used for in-memory stores,
//! environment snapshots, skip-argument maps and alternate-source maps.
//!
//! The table is viewed as a `Map` from key characters to the value's view.
//! Entries are kept in a list; the entry nearest the front wins, and an
//! upsert therefore inserts at the front.

use vstd::prelude::*;

verus! {

/// The map denoted by an entry list: the earliest entry for a key wins.
pub open spec fn table_map<V: View>(ps: Seq<(String, V)>) -> Map<Seq<char>, V::V>
    decreases ps.len(),
{
    if ps.len() == 0 {
        Map::empty()
    } else {
        table_map(ps.drop_first()).insert(ps.first().0@, ps.first().1@)
    }
}

/// A key/value table with string keys.
pub struct KvTable<V> {
    pairs: Vec<(String, V)>,
}

impl<V: View> View for KvTable<V> {
    type V = Map<Seq<char>, <V as View>::V>;

    closed spec fn view(&self) -> Map<Seq<char>, <V as View>::V> {
        table_map(self.pairs@)
    }
}

/// The first entry for a key decides both membership and the value.
proof fn lemma_table_map_first_match<V: View>(ps: Seq<(String, V)>, k: Seq<char>, i: int)
    requires
        0 <= i < ps.len(),
        ps[i].0@ == k,
        forall|j: int| 0 <= j < i ==> ps[j].0@ != k,
    ensures
        table_map(ps).dom().contains(k),
        table_map(ps)[k] == ps[i].1@,
    decreases ps.len(),
{
    if i > 0 {
        lemma_table_map_first_match(ps.drop_first(), k, i - 1);
    }
}

/// A key with no entry is not in the table's map.
proof fn lemma_table_map_no_match<V: View>(ps: Seq<(String, V)>, k: Seq<char>)
    requires
        forall|j: int| 0 <= j < ps.len() ==> ps[j].0@ != k,
    ensures
        !table_map(ps).dom().contains(k),
    decreases ps.len(),
{
    if ps.len() > 0 {
        lemma_table_map_no_match(ps.drop_first(), k);
    }
}

/// Removing one entry for a key leaves every other key's resolution alone.
proof fn lemma_table_map_remove_entry<V: View>(ps: Seq<(String, V)>, i: int, k2: Seq<char>)
    requires
        0 <= i < ps.len(),
        k2 != ps[i].0@,
    ensures
        table_map(ps.remove(i)).dom().contains(k2) == table_map(ps).dom().contains(k2),
        table_map(ps).dom().contains(k2) ==> table_map(ps.remove(i))[k2] == table_map(ps)[k2],
    decreases ps.len(),
{
    if i == 0 {
        assert(ps.remove(0) =~= ps.drop_first());
    } else {
        lemma_table_map_remove_entry(ps.drop_first(), i - 1, k2);
        assert(ps.remove(i).drop_first() =~= ps.drop_first().remove(i - 1));
        assert(ps.remove(i).first() == ps.first());
    }
}

impl<V: View> KvTable<V> {
    /// An empty table.
    pub fn new() -> (r: Self)
        ensures
            r@ == Map::<Seq<char>, <V as View>::V>::empty(),
    {
        KvTable { pairs: Vec::new() }
    }

    /// Upsert: after the call the key maps to the given value.
    pub fn set(&mut self, key: &str, value: V)
        ensures
            final(self)@ == old(self)@.insert(key@, value@),
    {
        self.pairs.insert(0, (key.to_owned(), value));
        proof {
            assert(self.pairs@.drop_first() =~= old(self).pairs@);
        }
    }

    /// Look the key up.
    pub fn get(&self, key: &str) -> (r: Option<&V>)
        ensures
            match r {
                Some(v) => self@.dom().contains(key@) && v@ == self@[key@],
                None => !self@.dom().contains(key@),
            },
    {
        let k = key.to_owned();
        let n = self.pairs.len();
        let mut i: usize = 0;
        while i < n
            invariant
                n == self.pairs@.len(),
                i <= n,
                k@ == key@,
                forall|j: int| 0 <= j < i ==> self.pairs@[j].0@ != key@,
            decreases n - i,
        {
            if self.pairs[i].0 == k {
                proof {
                    lemma_table_map_first_match(self.pairs@, key@, i as int);
                }
                return Some(&self.pairs[i].1);
            }
            i = i + 1;
        }
        proof {
            lemma_table_map_no_match(self.pairs@, key@);
        }
        None
    }

    /// Remove the key's deciding entry and hand its value out.  Every other
    /// key resolves as before; nothing is said of the removed key itself,
    /// which an earlier shadowed entry may still supply.
    pub fn take(&mut self, key: &str) -> (r: Option<V>)
        ensures
            match r {
                Some(v) => old(self)@.dom().contains(key@) && v@ == old(self)@[key@],
                None => !old(self)@.dom().contains(key@) && final(self)@ == old(self)@,
            },
            forall|k2: Seq<char>|
                k2 != key@ ==> #[trigger] final(self)@.dom().contains(k2) == old(
                    self,
                )@.dom().contains(k2),
            forall|k2: Seq<char>|
                k2 != key@ && old(self)@.dom().contains(k2) ==> #[trigger] final(self)@[k2] == old(
                    self,
                )@[k2],
    {
        let k = key.to_owned();
        let n = self.pairs.len();
        let mut i: usize = 0;
        while i < n
            invariant
                self.pairs@ == old(self).pairs@,
                n == self.pairs@.len(),
                i <= n,
                k@ == key@,
                forall|j: int| 0 <= j < i ==> self.pairs@[j].0@ != key@,
            decreases n - i,
        {
            if self.pairs[i].0 == k {
                proof {
                    lemma_table_map_first_match(self.pairs@, key@, i as int);
                }
                let p = self.pairs.remove(i);
                proof {
                    assert(self.pairs@ == old(self).pairs@.remove(i as int));
                    assert forall|k2: Seq<char>| k2 != key@ implies #[trigger] self@.dom().contains(
                        k2,
                    ) == old(self)@.dom().contains(k2) by {
                        lemma_table_map_remove_entry(old(self).pairs@, i as int, k2);
                    }
                    assert forall|k2: Seq<char>|
                        k2 != key@ && old(self)@.dom().contains(k2) implies #[trigger] self@[k2]
                        == old(self)@[k2] by {
                        lemma_table_map_remove_entry(old(self).pairs@, i as int, k2);
                    }
                }
                return Some(p.1);
            }
            i = i + 1;
        }
        proof {
            lemma_table_map_no_match(self.pairs@, key@);
        }
        None
    }

    /// The entry list behind the table, earliest-deciding first.
    pub fn entries(&self) -> (r: &Vec<(String, V)>)
        ensures
            table_map(r@) == self@,
    {
        &self.pairs
    }
}

} // verus!
