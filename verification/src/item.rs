//! The item record: an id together with named string fields, the unit of
//! data the plugin reads from and hands back to the host's storage layer.

use vstd::prelude::*;
use crate::text::str_eq;

verus! {

/// Sentinel id meaning "no id was supplied".
pub const UNSET_ID: u64 = u64::MAX;

/// The reserved id used when a caller supplies none.
pub fn unset_id() -> (r: u64)
    ensures
        r == UNSET_ID,
{
    u64::MAX
}

/// The mapping that a sequence of key/value entries denotes: a later entry
/// with the same key overrides an earlier one.
pub open spec fn map_of(s: Seq<(String, String)>) -> Map<Seq<char>, Seq<char>>
    decreases s.len(),
{
    if s.len() == 0 {
        Map::empty()
    } else {
        map_of(s.drop_last()).insert(s.last().0@, s.last().1@)
    }
}

/// No two entries share a key.
pub open spec fn unique_keys(s: Seq<(String, String)>) -> bool {
    forall|i: int, j: int| 0 <= i < j < s.len() ==> s[i].0@ != s[j].0@
}

/// A sparse record: an id and named string fields.
pub struct Item {
    id: u64,
    fields: Vec<(String, String)>,
}

/// A key is in `map_of(s)` exactly when some entry of `s` carries it.
pub proof fn lemma_map_of_domain(s: Seq<(String, String)>, k: Seq<char>)
    ensures
        map_of(s).contains_key(k) <==> exists|i: int| 0 <= i < s.len() && s[i].0@ == k,
    decreases s.len(),
{
    if s.len() > 0 {
        lemma_map_of_domain(s.drop_last(), k);
        if map_of(s).contains_key(k) {
            if s.last().0@ != k {
                let i = choose|i: int| 0 <= i < s.drop_last().len() && s.drop_last()[i].0@ == k;
                assert(s[i].0@ == k);
            }
        }
        if exists|i: int| 0 <= i < s.len() && s[i].0@ == k {
            let i = choose|i: int| 0 <= i < s.len() && s[i].0@ == k;
            if i < s.len() - 1 {
                assert(s.drop_last()[i].0@ == k);
            }
        }
    }
}

/// With unique keys, the entry at index `i` gives the value of its key.
pub proof fn lemma_map_of_at(s: Seq<(String, String)>, i: int)
    requires
        unique_keys(s),
        0 <= i < s.len(),
    ensures
        map_of(s).contains_key(s[i].0@),
        map_of(s)[s[i].0@] == s[i].1@,
    decreases s.len(),
{
    if i == s.len() - 1 {
    } else {
        assert(unique_keys(s.drop_last()));
        lemma_map_of_at(s.drop_last(), i);
        assert(s[i].0@ != s.last().0@);
    }
}

/// With unique keys, replacing the entry at `i` by one with the same key
/// updates the denoted mapping at that key alone.
pub proof fn lemma_map_of_update(s: Seq<(String, String)>, i: int, p: (String, String))
    requires
        unique_keys(s),
        0 <= i < s.len(),
        p.0@ == s[i].0@,
    ensures
        map_of(s.update(i, p)) == map_of(s).insert(p.0@, p.1@),
        unique_keys(s.update(i, p)),
    decreases s.len(),
{
    let t = s.update(i, p);
    assert(unique_keys(t));
    if i == s.len() - 1 {
        assert(t.drop_last() =~= s.drop_last());
        assert(map_of(t) == map_of(s.drop_last()).insert(p.0@, p.1@));
        assert(map_of(s.drop_last()).insert(s.last().0@, s.last().1@).insert(p.0@, p.1@)
            =~= map_of(s.drop_last()).insert(p.0@, p.1@));
    } else {
        assert(unique_keys(s.drop_last()));
        lemma_map_of_update(s.drop_last(), i, p);
        assert(t.drop_last() =~= s.drop_last().update(i, p));
        assert(t.last() == s.last());
        assert(map_of(t) == map_of(s.drop_last()).insert(p.0@, p.1@).insert(s.last().0@, s.last().1@));
        assert(s.last().0@ != p.0@);
        assert(map_of(s.drop_last()).insert(p.0@, p.1@).insert(s.last().0@, s.last().1@)
            =~= map_of(s.drop_last()).insert(s.last().0@, s.last().1@).insert(p.0@, p.1@));
    }
}

impl Item {
    /// The id of this item.
    pub closed spec fn spec_id(&self) -> u64 {
        self.id
    }

    /// The id of this item.
    pub fn id(&self) -> (r: u64)
        ensures
            r == self.spec_id(),
    {
        self.id
    }

    /// Replace the id of this item.
    pub fn set_id(&mut self, id: u64)
        ensures
            final(self).spec_id() == id,
            final(self).strs() == old(self).strs(),
            final(self).wf() == old(self).wf(),
    {
        self.id = id;
    }

    /// The named string fields, as a mapping from key to value.
    pub closed spec fn strs(&self) -> Map<Seq<char>, Seq<char>> {
        map_of(self.fields@)
    }

    /// Well-formed: no key occurs twice.
    pub closed spec fn wf(&self) -> bool {
        unique_keys(self.fields@)
    }

    /// A fresh item: the unset id and no fields.
    pub fn new() -> (r: Item)
        ensures
            r.wf(),
            r.spec_id() == UNSET_ID,
            r.strs() == Map::<Seq<char>, Seq<char>>::empty(),
    {
        Item { id: u64::MAX, fields: Vec::new() }
    }

    /// The value of string field `key`, or `def` when the field is absent.
    pub fn safe_str(&self, key: &str, def: &str) -> (r: String)
        requires
            self.wf(),
        ensures
            r@ == if self.strs().contains_key(key@) {
                self.strs()[key@]
            } else {
                def@
            },
    {
        let n = self.fields.len();
        let mut i: usize = 0;
        while i < n
            invariant
                i <= n,
                n == self.fields.len(),
                self.wf(),
                forall|k: int| 0 <= k < i ==> self.fields@[k].0@ != key@,
            decreases n - i,
        {
            if str_eq(self.fields[i].0.as_str(), key) {
                proof {
                    lemma_map_of_at(self.fields@, i as int);
                }
                return self.fields[i].1.clone();
            }
            i = i + 1;
        }
        proof {
            lemma_map_of_domain(self.fields@, key@);
        }
        def.to_owned()
    }

    /// The named string fields, as a vector of key/value pairs with unique
    /// keys.
    pub fn entries(&self) -> (v: Vec<(String, String)>)
        requires
            self.wf(),
        ensures
            unique_keys(v@),
            map_of(v@) == self.strs(),
    {
        let n = self.fields.len();
        let mut v: Vec<(String, String)> = Vec::new();
        let mut i: usize = 0;
        while i < n
            invariant
                i <= n,
                n == self.fields.len(),
                v@ == self.fields@.take(i as int),
            decreases n - i,
        {
            let k = self.fields[i].0.clone();
            let value = self.fields[i].1.clone();
            v.push((k, value));
            proof {
                assert(self.fields@.take(i + 1) =~= self.fields@.take(i as int).push(
                    self.fields@[i as int],
                ));
            }
            i = i + 1;
        }
        proof {
            assert(v@ =~= self.fields@);
        }
        v
    }

    /// Set string field `key` to `value`, replacing any previous value.
    pub fn set_str(&mut self, key: &str, value: &str)
        requires
            old(self).wf(),
        ensures
            final(self).wf(),
            final(self).spec_id() == old(self).spec_id(),
            final(self).strs() == old(self).strs().insert(key@, value@),
    {
        let n = self.fields.len();
        let mut i: usize = 0;
        while i < n
            invariant
                i <= n,
                n == self.fields.len(),
                self == old(self),
                self.wf(),
                forall|k: int| 0 <= k < i ==> self.fields@[k].0@ != key@,
            decreases n - i,
        {
            if str_eq(self.fields[i].0.as_str(), key) {
                let k = self.fields[i].0.clone();
                let v = value.to_owned();
                proof {
                    lemma_map_of_update(self.fields@, i as int, (k, v));
                }
                self.fields.set(i, (k, v));
                return;
            }
            i = i + 1;
        }
        let k = key.to_owned();
        let v = value.to_owned();
        proof {
            lemma_map_of_domain(self.fields@, key@);
            assert(self.fields@.push((k, v)).drop_last() =~= self.fields@);
        }
        self.fields.push((k, v));
    }
}

} // verus!
