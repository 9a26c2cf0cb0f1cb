//! The host-profile cache: abridged fact sheets keyed by user id.
//!
//! Entries live in insertion order with unique keys; the cache's meaning is
//! the map from key views to entries, and every operation is stated over it.

use vstd::prelude::*;
use crate::time::{Timestamp, cache_time_valid, is_cache_time_valid};

verus! {

/// The cached fact sheet for one user.
#[derive(Clone, Copy, PartialEq, Eq, Structural, Debug)]
pub struct AbridgedUser {
    pub registration_date: Timestamp,
    pub is_patron: bool,
    pub is_mentor: bool,
    pub cache_time: Timestamp,
}

impl AbridgedUser {
    pub open spec fn wf(self) -> bool {
        self.registration_date.wf() && self.cache_time.wf()
    }
}

/// The map a sequence of key/entry pairs stands for; a later pair with the
/// same key wins.
pub open spec fn map_of(s: Seq<(Seq<char>, AbridgedUser)>) -> Map<Seq<char>, AbridgedUser>
    decreases s.len(),
{
    if s.len() == 0 {
        Map::empty()
    } else {
        map_of(s.drop_last()).insert(s.last().0, s.last().1)
    }
}

pub open spec fn unique_keys(s: Seq<(Seq<char>, AbridgedUser)>) -> bool {
    forall|i: int, j: int| 0 <= i < j < s.len() ==> (#[trigger] s[i]).0 != (#[trigger] s[j]).0
}

pub proof fn lemma_map_of_contains(s: Seq<(Seq<char>, AbridgedUser)>, k: Seq<char>)
    ensures
        map_of(s).contains_key(k) <==> exists|i: int| 0 <= i < s.len() && (#[trigger] s[i]).0 == k,
    decreases s.len(),
{
    if s.len() > 0 {
        let t = s.drop_last();
        lemma_map_of_contains(t, k);
        if s.last().0 == k {
            assert(s[s.len() - 1].0 == k);
        } else {
            if map_of(s).contains_key(k) {
                let i = choose|i: int| 0 <= i < t.len() && (#[trigger] t[i]).0 == k;
                assert(s[i].0 == k);
            }
            if exists|i: int| 0 <= i < s.len() && (#[trigger] s[i]).0 == k {
                let i = choose|i: int| 0 <= i < s.len() && (#[trigger] s[i]).0 == k;
                assert(t[i].0 == k);
            }
        }
    }
}

pub proof fn lemma_map_of_index(s: Seq<(Seq<char>, AbridgedUser)>, i: int)
    requires
        unique_keys(s),
        0 <= i < s.len(),
    ensures
        map_of(s).contains_key(s[i].0),
        map_of(s)[s[i].0] == s[i].1,
    decreases s.len(),
{
    let t = s.drop_last();
    if i < s.len() - 1 {
        assert(unique_keys(t));
        lemma_map_of_index(t, i);
        assert(t[i] == s[i]);
        assert(s.last().0 != s[i].0);
    }
}

pub proof fn lemma_map_of_remove(s: Seq<(Seq<char>, AbridgedUser)>, i: int)
    requires
        unique_keys(s),
        0 <= i < s.len(),
    ensures
        map_of(s.remove(i)) =~= map_of(s).remove(s[i].0),
    decreases s.len(),
{
    let t = s.drop_last();
    assert(unique_keys(t));
    if i == s.len() - 1 {
        assert(s.remove(i) =~= t);
        lemma_map_of_contains(t, s[i].0);
        assert(forall|j: int| 0 <= j < t.len() ==> (#[trigger] t[j]).0 != s[i].0);
        assert(!map_of(t).contains_key(s[i].0));
        assert(map_of(s.remove(i)) =~= map_of(s).remove(s[i].0));
    } else {
        lemma_map_of_remove(t, i);
        assert(s.remove(i).drop_last() =~= t.remove(i));
        assert(s.remove(i).last() == s.last());
        assert(map_of(s.remove(i)) == map_of(t.remove(i)).insert(s.last().0, s.last().1));
        assert(s.last().0 != s[i].0);
        assert(map_of(t).remove(s[i].0).insert(s.last().0, s.last().1) =~= map_of(t).insert(
            s.last().0,
            s.last().1,
        ).remove(s[i].0));
    }
}

/// The in-memory host-profile cache.
pub struct UserCache {
    pub entries: Vec<(String, AbridgedUser)>,
}

/// What a cache lookup returns: the entry under the key, if present and still
/// fresh at `now`; nothing otherwise.
pub open spec fn cache_lookup_spec(
    m: Map<Seq<char>, AbridgedUser>,
    user_id: Seq<char>,
    now: Timestamp,
) -> Option<AbridgedUser> {
    if m.contains_key(user_id) && cache_time_valid(m[user_id].cache_time, now) {
        Some(m[user_id])
    } else {
        None
    }
}

/// Key/entry pairs with the keys as character sequences.
pub open spec fn entry_views(s: Seq<(String, AbridgedUser)>) -> Seq<(Seq<char>, AbridgedUser)> {
    s.map_values(|p: (String, AbridgedUser)| (p.0@, p.1))
}

impl UserCache {
    /// The key/entry pairs, keys as character sequences, in storage order.
    pub open spec fn entries_view(self) -> Seq<(Seq<char>, AbridgedUser)> {
        entry_views(self.entries@)
    }

    pub open spec fn wf(self) -> bool {
        &&& unique_keys(self.entries_view())
        &&& forall|i: int|
            0 <= i < self.entries_view().len() ==> (#[trigger] self.entries_view()[i]).1.wf()
    }

    pub open spec fn as_map(self) -> Map<Seq<char>, AbridgedUser> {
        map_of(self.entries_view())
    }

    pub fn new() -> (r: UserCache)
        ensures
            r.wf(),
            r.as_map() =~= Map::<Seq<char>, AbridgedUser>::empty(),
            r.entries_view() =~= Seq::<(Seq<char>, AbridgedUser)>::empty(),
    {
        UserCache { entries: Vec::new() }
    }

    pub fn len(&self) -> (r: usize)
        ensures
            r == self.entries_view().len(),
    {
        self.entries.len()
    }

    /// The entry stored under `user_id`, fresh or stale.
    pub fn get(&self, user_id: &String) -> (r: Option<&AbridgedUser>)
        requires
            self.wf(),
        ensures
            match r {
                Some(u) => self.as_map().contains_key(user_id@) && *u == self.as_map()[user_id@]
                    && u.wf(),
                None => !self.as_map().contains_key(user_id@),
            },
    {
        let n = self.entries.len();
        let mut i: usize = 0;
        while i < n
            invariant
                self.wf(),
                n == self.entries_view().len(),
                i <= n,
                forall|j: int| 0 <= j < i ==> (#[trigger] self.entries_view()[j]).0 != user_id@,
            decreases n - i,
        {
            if self.entries[i].0.eq(user_id) {
                proof {
                    lemma_map_of_index(self.entries_view(), i as int);
                }
                return Some(&self.entries[i].1);
            }
            i = i + 1;
        }
        proof {
            lemma_map_of_contains(self.entries_view(), user_id@);
        }
        None
    }

    /// The entry under `user_id` if it is present and still fresh at `now`.
    pub fn get_valid(&self, user_id: &String, now: &Timestamp) -> (r: Option<AbridgedUser>)
        requires
            self.wf(),
            now.wf(),
        ensures
            r == cache_lookup_spec(self.as_map(), user_id@, *now),
    {
        match self.get(user_id) {
            Some(u) => {
                let entry = *u;
                if is_cache_time_valid(&entry.cache_time, now) {
                    Some(entry)
                } else {
                    None
                }
            },
            None => None,
        }
    }

    /// Stores `user` under `user_id`, overwriting any prior entry.
    pub fn insert(&mut self, user_id: String, user: AbridgedUser)
        requires
            old(self).wf(),
            user.wf(),
        ensures
            final(self).wf(),
            final(self).as_map() =~= old(self).as_map().insert(user_id@, user),
    {
        let n = self.entries.len();
        let mut i: usize = 0;
        let mut found: Option<usize> = None;
        while i < n
            invariant
                self.wf(),
                n == self.entries_view().len(),
                i <= n,
                match found {
                    Some(fi) => fi < i && self.entries_view()[fi as int].0 == user_id@,
                    None => forall|j: int|
                        0 <= j < i ==> (#[trigger] self.entries_view()[j]).0 != user_id@,
                },
            decreases n - i,
        {
            if found.is_none() && self.entries[i].0.eq(&user_id) {
                found = Some(i);
            }
            i = i + 1;
        }
        let ghost pre = self.entries_view();
        match found {
            Some(fi) => {
                self.entries.remove(fi);
                proof {
                    assert(self.entries_view() =~= pre.remove(fi as int));
                    lemma_map_of_remove(pre, fi as int);
                    assert forall|a: int, b: int|
                        0 <= a < b < self.entries_view().len() implies (
                    #[trigger] self.entries_view()[a]).0 != (#[trigger] self.entries_view()[b]).0 by {
                        if b < fi {
                            assert(pre[a].0 != pre[b].0);
                        } else if a < fi {
                            assert(pre[a].0 != pre[b + 1].0);
                        } else {
                            assert(pre[a + 1].0 != pre[b + 1].0);
                        }
                    }
                    assert forall|j: int|
                        0 <= j < self.entries_view().len() implies (
                    #[trigger] self.entries_view()[j]).0 != user_id@ by {
                        if j < fi {
                            assert(pre[j].0 != pre[fi as int].0);
                        } else {
                            assert(pre[fi as int].0 != pre[j + 1].0);
                        }
                    }
                }
            },
            None => (),
        }
        let ghost mid = self.entries_view();
        let ghost mid_map = self.as_map();
        self.entries.push((user_id, user));
        proof {
            assert(self.entries_view() =~= mid.push((user_id@, user)));
            assert(self.entries_view().drop_last() =~= mid);
            assert(self.as_map() =~= mid_map.insert(user_id@, user));
            assert(final(self).as_map() =~= old(self).as_map().insert(user_id@, user));
            assert forall|a: int, b: int|
                0 <= a < b < self.entries_view().len() implies (
            #[trigger] self.entries_view()[a]).0 != (#[trigger] self.entries_view()[b]).0 by {
                if b == self.entries_view().len() - 1 {
                    assert(mid[a].0 != user_id@);
                } else {
                    assert(mid[a].0 != mid[b].0);
                }
            }
        }
    }
}

} // verus!
