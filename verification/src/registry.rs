//! The element registry: an id-keyed table with last-write-wins updates.
//!
//! The presentation layer registers a geometry value for each mounted panel
//! element and removes it on unmount.  The same table shape also carries the
//! per-panel draggable flags.  A table is viewed as a `Map` from the id's
//! characters to the stored value; duplicate registration of an id silently
//! overwrites the earlier value.

use vstd::prelude::*;

verus! {

/// No two entries share a key, so a key's value in the table is unambiguous.
pub open spec fn keys_unique<V>(s: Seq<(String, V)>) -> bool {
    forall|i: int, j: int|
        #![trigger s[i].0@, s[j].0@]
        0 <= i < j < s.len() ==> s[i].0@ != s[j].0@
}

/// The map described by an entry sequence; a later entry for a key wins.
pub open spec fn table_view<V>(s: Seq<(String, V)>) -> Map<Seq<char>, V>
    decreases s.len(),
{
    if s.len() == 0 {
        Map::empty()
    } else {
        table_view(s.drop_last()).insert(s.last().0@, s.last().1)
    }
}

proof fn lemma_table_view_props<V>(s: Seq<(String, V)>)
    ensures
        forall|k: Seq<char>|
            #[trigger] table_view(s).dom().contains(k) <==> exists|i: int|
                0 <= i < s.len() && #[trigger] s[i].0@ == k,
        keys_unique(s) ==> forall|i: int|
            0 <= i < s.len() ==> #[trigger] table_view(s)[s[i].0@] == s[i].1,
    decreases s.len(),
{
    if s.len() == 0 {
    } else {
        let prefix = s.drop_last();
        lemma_table_view_props(prefix);
        assert forall|k: Seq<char>| #[trigger]
            table_view(s).dom().contains(k) implies exists|i: int|
            0 <= i < s.len() && #[trigger] s[i].0@ == k by {
            if k == s.last().0@ {
                assert(s[s.len() - 1].0@ == k);
            } else {
                assert(table_view(prefix).dom().contains(k));
                let i = choose|i: int| 0 <= i < prefix.len() && #[trigger] prefix[i].0@ == k;
                assert(s[i].0@ == k);
            }
        }
        assert forall|k: Seq<char>|
            (exists|i: int| 0 <= i < s.len() && #[trigger] s[i].0@ == k) implies #[trigger]
            table_view(s).dom().contains(k) by {
            let i = choose|i: int| 0 <= i < s.len() && #[trigger] s[i].0@ == k;
            if i < s.len() - 1 {
                assert(prefix[i].0@ == k);
                assert(table_view(prefix).dom().contains(k));
            }
        }
        if keys_unique(s) {
            assert(keys_unique(prefix)) by {
                assert forall|a: int, b: int|
                    #![trigger prefix[a].0@, prefix[b].0@]
                    0 <= a < b < prefix.len() implies prefix[a].0@ != prefix[b].0@ by {
                    assert(prefix[a] == s[a] && prefix[b] == s[b]);
                }
            }
            assert forall|i: int| 0 <= i < s.len() implies #[trigger]
                table_view(s)[s[i].0@] == s[i].1 by {
                if i < s.len() - 1 {
                    assert(prefix[i] == s[i]);
                    assert(s[i].0@ != s[s.len() - 1].0@);
                    assert(table_view(prefix)[prefix[i].0@] == prefix[i].1);
                }
            }
        }
    }
}

proof fn lemma_table_view_remove<V>(s: Seq<(String, V)>, i: int)
    requires
        keys_unique(s),
        0 <= i < s.len(),
    ensures
        table_view(s.remove(i)) == table_view(s).remove(s[i].0@),
    decreases s.len(),
{
    let prefix = s.drop_last();
    lemma_table_view_props(prefix);
    assert(keys_unique(prefix)) by {
        assert forall|a: int, b: int|
            #![trigger prefix[a].0@, prefix[b].0@]
            0 <= a < b < prefix.len() implies prefix[a].0@ != prefix[b].0@ by {
            assert(prefix[a] == s[a] && prefix[b] == s[b]);
        }
    }
    if i == s.len() - 1 {
        assert(s.remove(i) =~= prefix);
        assert(!table_view(prefix).dom().contains(s[i].0@)) by {
            if table_view(prefix).dom().contains(s[i].0@) {
                let j = choose|j: int|
                    0 <= j < prefix.len() && #[trigger] prefix[j].0@ == s[i].0@;
                assert(s[j].0@ == s[i].0@);
            }
        }
        assert(table_view(prefix) =~= table_view(s).remove(s[i].0@));
    } else {
        lemma_table_view_remove(prefix, i);
        assert(s.remove(i).drop_last() =~= prefix.remove(i));
        assert(s.remove(i).last() == s.last());
        assert(prefix[i] == s[i]);
        assert(s[i].0@ != s.last().0@);
        assert(table_view(s.remove(i)) == table_view(prefix).remove(s[i].0@).insert(
            s.last().0@,
            s.last().1,
        ));
        assert(table_view(prefix).remove(s[i].0@).insert(s.last().0@, s.last().1)
            =~= table_view(prefix).insert(s.last().0@, s.last().1).remove(s[i].0@));
    }
}

proof fn lemma_keys_unique_remove<V>(s: Seq<(String, V)>, i: int)
    requires
        keys_unique(s),
        0 <= i < s.len(),
    ensures
        keys_unique(s.remove(i)),
{
    let t = s.remove(i);
    assert forall|a: int, b: int|
        #![trigger t[a].0@, t[b].0@]
        0 <= a < b < t.len() implies t[a].0@ != t[b].0@ by {
        let a0 = if a < i {
            a
        } else {
            a + 1
        };
        let b0 = if b < i {
            b
        } else {
            b + 1
        };
        assert(t[a] == s[a0] && t[b] == s[b0]);
    }
}

/// An id-keyed table of plain values with last-write-wins registration.
pub struct Table<V> {
    entries: Vec<(String, V)>,
}

impl<V> View for Table<V> {
    type V = Map<Seq<char>, V>;

    closed spec fn view(&self) -> Map<Seq<char>, V> {
        table_view(self.entries@)
    }
}

impl<V: Copy> Table<V> {
    /// The internal entry list names each key once.
    pub closed spec fn wf(self) -> bool {
        keys_unique(self.entries@)
    }

    /// An empty table.
    pub fn new() -> (t: Table<V>)
        ensures
            t.wf(),
            t@ == Map::<Seq<char>, V>::empty(),
    {
        Table { entries: Vec::new() }
    }

    /// Looks the id up; `None` when the id was never stored or was removed.
    pub fn get(&self, id: &String) -> (r: Option<V>)
        requires
            self.wf(),
        ensures
            r == if self@.dom().contains(id@) {
                Some(self@[id@])
            } else {
                None::<V>
            },
    {
        let n = self.entries.len();
        let mut idx: usize = 0;
        while idx < n
            invariant
                n == self.entries@.len(),
                idx <= n,
                self.wf(),
                forall|j: int| 0 <= j < idx ==> #[trigger] self.entries@[j].0@ != id@,
            decreases n - idx,
        {
            if self.entries[idx].0 == *id {
                proof {
                    lemma_table_view_props(self.entries@);
                    assert(self@.dom().contains(id@));
                }
                return Some(self.entries[idx].1);
            }
            idx += 1;
        }
        proof {
            lemma_table_view_props(self.entries@);
            assert(!self@.dom().contains(id@));
        }
        None
    }

    /// Stores a value for the id, overwriting any earlier registration.
    pub fn put(&mut self, id: String, v: V)
        requires
            old(self).wf(),
        ensures
            final(self).wf(),
            final(self)@ == old(self)@.insert(id@, v),
    {
        self.remove(&id);
        let ghost pre = self.entries@;
        self.entries.push((id, v));
        proof {
            assert(self.entries@.drop_last() =~= pre);
            lemma_table_view_props(pre);
            assert(!table_view(pre).dom().contains(id@));
            assert forall|j: int| 0 <= j < pre.len() implies #[trigger] pre[j].0@ != id@ by {
                if pre[j].0@ == id@ {
                    assert(table_view(pre).dom().contains(id@));
                }
            }
            assert(keys_unique(self.entries@)) by {
                let t = self.entries@;
                assert forall|a: int, b: int|
                    #![trigger t[a].0@, t[b].0@]
                    0 <= a < b < t.len() implies t[a].0@ != t[b].0@ by {
                    assert(t[a] == pre[a]);
                    if b < t.len() - 1 {
                        assert(t[b] == pre[b]);
                    } else {
                        assert(t[b].0@ == id@);
                    }
                }
            }
            assert(self@ =~= old(self)@.insert(id@, v));
        }
    }

    /// Removes the id's entry, if any.
    pub fn remove(&mut self, id: &String)
        requires
            old(self).wf(),
        ensures
            final(self).wf(),
            final(self)@ == old(self)@.remove(id@),
    {
        let n = self.entries.len();
        let mut idx: usize = 0;
        while idx < n
            invariant
                n == self.entries@.len(),
                idx <= n,
                self.wf(),
                self.entries@ == old(self).entries@,
                forall|j: int| 0 <= j < idx ==> #[trigger] self.entries@[j].0@ != id@,
            decreases n - idx,
        {
            if self.entries[idx].0 == *id {
                proof {
                    lemma_table_view_remove(self.entries@, idx as int);
                    lemma_keys_unique_remove(self.entries@, idx as int);
                }
                self.entries.remove(idx);
                return ;
            }
            idx += 1;
        }
        proof {
            lemma_table_view_props(self.entries@);
            assert(!self@.dom().contains(id@));
            assert(self@ =~= self@.remove(id@));
        }
    }
}

} // verus!
