//! Secondary indices of the session registry: a key (a portal user, a
//! device) maps to the set of session ids filed under it. Buckets that
//! become empty are dropped, so every key present has at least one id.
use vstd::prelude::*;

verus! {

/// The set of string values held in `ids`.
pub open spec fn id_set(ids: Seq<String>) -> Set<Seq<char>> {
    Set::new(|x: Seq<char>| exists|j: int| 0 <= j < ids.len() && ids[j]@ == x)
}

/// No two entries of `ids` hold the same string.
pub open spec fn distinct_views(ids: Seq<String>) -> bool {
    forall|a: int, b: int| 0 <= a < b < ids.len() ==> ids[a]@ != ids[b]@
}

/// Appending a string adds its value to the set.
pub proof fn lemma_id_set_push(ids: Seq<String>, x: String)
    ensures
        id_set(ids.push(x)) == id_set(ids).insert(x@),
{
    let pushed = ids.push(x);
    assert forall|v: Seq<char>| id_set(pushed).contains(v) <==> id_set(ids).insert(x@).contains(v) by {
        if id_set(ids).contains(v) {
            let j = choose|j: int| 0 <= j < ids.len() && ids[j]@ == v;
            assert(pushed[j]@ == v);
        }
        if v == x@ {
            assert(pushed[ids.len() as int]@ == v);
        }
        if id_set(pushed).contains(v) {
            let j = choose|j: int| 0 <= j < pushed.len() && pushed[j]@ == v;
            if j < ids.len() {
                assert(ids[j]@ == v);
            }
        }
    }
    assert(id_set(pushed) =~= id_set(ids).insert(x@));
}

/// Taking out one entry of a sequence without repeats takes its value out
/// of the set, and leaves no repeats.
pub proof fn lemma_id_set_remove(ids: Seq<String>, j: int)
    requires
        0 <= j < ids.len(),
        distinct_views(ids),
    ensures
        id_set(ids.remove(j)) == id_set(ids).remove(ids[j]@),
        distinct_views(ids.remove(j)),
{
    let rest = ids.remove(j);
    assert forall|v: Seq<char>| id_set(rest).contains(v) <==> id_set(ids).remove(ids[j]@).contains(v) by {
        if id_set(rest).contains(v) {
            let k = choose|k: int| 0 <= k < rest.len() && rest[k]@ == v;
            if k < j {
                assert(ids[k]@ == v);
            } else {
                assert(ids[k + 1]@ == v);
            }
        }
        if id_set(ids).remove(ids[j]@).contains(v) {
            let k = choose|k: int| 0 <= k < ids.len() && ids[k]@ == v;
            assert(k != j);
            if k < j {
                assert(rest[k]@ == v);
            } else {
                assert(rest[k - 1]@ == v);
            }
        }
    }
    assert(id_set(rest) =~= id_set(ids).remove(ids[j]@));
    assert forall|a: int, b: int| 0 <= a < b < rest.len() implies rest[a]@ != rest[b]@ by {
        let ia = if a < j { a } else { a + 1 };
        let ib = if b < j { b } else { b + 1 };
        assert(rest[a] == ids[ia]);
        assert(rest[b] == ids[ib]);
    }
}

/// A sequence without repeats has as many values as entries.
pub proof fn lemma_id_set_len(ids: Seq<String>)
    requires
        distinct_views(ids),
    ensures
        id_set(ids).finite(),
        id_set(ids).len() == ids.len(),
    decreases ids.len(),
{
    if ids.len() == 0 {
        assert(id_set(ids) =~= Set::empty());
    } else {
        let front = ids.drop_last();
        let last = ids.last();
        assert(ids =~= front.push(last));
        assert(distinct_views(front)) by {
            assert forall|a: int, b: int| 0 <= a < b < front.len() implies front[a]@ != front[b]@ by {
                assert(front[a] == ids[a] && front[b] == ids[b]);
            }
        }
        lemma_id_set_len(front);
        lemma_id_set_push(front, last);
        assert(!id_set(front).contains(last@)) by {
            if id_set(front).contains(last@) {
                let k = choose|k: int| 0 <= k < front.len() && front[k]@ == last@;
                assert(ids[k]@ == ids[ids.len() - 1]@);
            }
        }
    }
}

/// The set under `k` in `m`, empty where `k` is absent.
pub open spec fn set_under(m: Map<Seq<char>, Set<Seq<char>>>, k: Seq<char>) -> Set<Seq<char>> {
    if m.contains_key(k) {
        m[k]
    } else {
        Set::empty()
    }
}

/// `m` once `x` is taken out of the set under `k`; a set left empty is
/// dropped together with its key.
pub open spec fn removed_from(
    m: Map<Seq<char>, Set<Seq<char>>>,
    k: Seq<char>,
    x: Seq<char>,
) -> Map<Seq<char>, Set<Seq<char>>> {
    if !m.contains_key(k) {
        m
    } else if m[k].remove(x) == Set::<Seq<char>>::empty() {
        m.remove(k)
    } else {
        m.insert(k, m[k].remove(x))
    }
}

/// Position of `id` in `ids`.
pub fn position_of(ids: &Vec<String>, id: &String) -> (r: Option<usize>)
    ensures
        match r {
            Some(j) => j < ids@.len() && ids@[j as int]@ == id@,
            None => !id_set(ids@).contains(id@),
        },
{
    let mut j: usize = 0;
    while j < ids.len()
        invariant
            0 <= j <= ids@.len(),
            forall|k: int| 0 <= k < j ==> (#[trigger] ids@[k])@ != id@,
        decreases ids@.len() - j,
    {
        if ids[j] == *id {
            return Some(j);
        }
        j = j + 1;
    }
    None
}

/// Copies a vector of strings.
pub fn copy_strings(ids: &Vec<String>) -> (r: Vec<String>)
    ensures
        r@ == ids@,
{
    let mut out: Vec<String> = Vec::new();
    let mut j: usize = 0;
    while j < ids.len()
        invariant
            0 <= j <= ids@.len(),
            out@ == ids@.subrange(0, j as int),
        decreases ids@.len() - j,
    {
        out.push(ids[j].clone());
        j = j + 1;
        proof {
            assert(ids@.subrange(0, j as int) =~= ids@.subrange(0, j - 1).push(ids@[j - 1]));
        }
    }
    assert(ids@.subrange(0, ids@.len() as int) =~= ids@);
    out
}

/// The ids filed under one key.
pub struct IdBucket {
    pub key: String,
    pub ids: Vec<String>,
}

/// A map from keys to non-empty sets of session ids, kept as a vector of
/// buckets with distinct keys.
pub struct IdIndex {
    buckets: Vec<IdBucket>,
    mapping: Ghost<Map<Seq<char>, Set<Seq<char>>>>,
}

/// The keys of a sequence of buckets.
pub open spec fn bucket_keys(b: Seq<IdBucket>) -> Seq<String> {
    b.map_values(|x: IdBucket| x.key)
}

impl View for IdIndex {
    type V = Map<Seq<char>, Set<Seq<char>>>;

    closed spec fn view(&self) -> Map<Seq<char>, Set<Seq<char>>> {
        self.mapping@
    }
}

impl IdIndex {
    /// The buckets agree with the map, their keys are distinct, and no
    /// bucket is empty or holds an id twice.
    pub closed spec fn wf(&self) -> bool {
        let b = self.buckets@;
        &&& distinct_views(bucket_keys(b))
        &&& forall|i: int|
            0 <= i < b.len() ==> (#[trigger] b[i]).ids@.len() > 0 && distinct_views(b[i].ids@)
                && self.mapping@.contains_key(b[i].key@) && self.mapping@[b[i].key@] == id_set(
                b[i].ids@,
            )
        &&& forall|k: Seq<char>|
            self.mapping@.contains_key(k) ==> exists|i: int|
                0 <= i < b.len() && (#[trigger] b[i]).key@ == k
    }

    /// The ids under `key`, empty where the key is absent.
    pub open spec fn ids_under(&self, key: Seq<char>) -> Set<Seq<char>> {
        set_under(self@, key)
    }

    /// An empty index.
    pub fn new() -> (r: Self)
        ensures
            r.wf(),
            r@ == Map::<Seq<char>, Set<Seq<char>>>::empty(),
    {
        IdIndex { buckets: Vec::new(), mapping: Ghost(Map::empty()) }
    }

    /// Position of the bucket of `key`.
    fn find(&self, key: &String) -> (r: Option<usize>)
        requires
            self.wf(),
        ensures
            match r {
                Some(i) => i < self.buckets@.len() && self.buckets@[i as int].key@ == key@,
                None => !self@.contains_key(key@),
            },
    {
        let mut i: usize = 0;
        while i < self.buckets.len()
            invariant
                self.wf(),
                0 <= i <= self.buckets@.len(),
                forall|j: int| 0 <= j < i ==> (#[trigger] self.buckets@[j]).key@ != key@,
            decreases self.buckets@.len() - i,
        {
            if self.buckets[i].key == *key {
                return Some(i);
            }
            i = i + 1;
        }
        None
    }

    /// Files `id` under `key`, creating the bucket when needed.
    pub fn insert(&mut self, key: &String, id: &String)
        requires
            old(self).wf(),
            !old(self).ids_under(key@).contains(id@),
        ensures
            final(self).wf(),
            final(self)@ == old(self)@.insert(key@, old(self).ids_under(key@).insert(id@)),
    {
        let ghost before = self.buckets@;
        match self.find(key) {
            Some(i) => {
                let ghost old_ids = self.buckets@[i as int].ids@;
                self.buckets[i].ids.push(id.clone());
                proof {
                    self.mapping@ = self.mapping@.insert(key@, self.mapping@[key@].insert(id@));
                    let b = self.buckets@;
                    assert(b[i as int].ids@ == old_ids.push(*id));
                    lemma_id_set_push(old_ids, *id);
                    assert(bucket_keys(b) =~= bucket_keys(before));
                    assert forall|a: int, c: int| 0 <= a < c < old_ids.push(*id).len()
                        implies old_ids.push(*id)[a]@ != old_ids.push(*id)[c]@ by {
                        if c == old_ids.len() {
                            assert(id_set(old_ids).contains(old_ids[a]@));
                        }
                    }
                    assert forall|j: int| 0 <= j < b.len() implies (#[trigger] b[j]).ids@.len() > 0
                        && distinct_views(b[j].ids@) && self.mapping@.contains_key(b[j].key@)
                        && self.mapping@[b[j].key@] == id_set(b[j].ids@) by {
                        if j != i {
                            assert(b[j] == before[j]);
                            assert(before[j].key@ != key@) by {
                                let keys = bucket_keys(before);
                                if j < i {
                                    assert(keys[j]@ != keys[i as int]@);
                                } else {
                                    assert(keys[i as int]@ != keys[j]@);
                                }
                            }
                        }
                    }
                    assert forall|k: Seq<char>| self.mapping@.contains_key(k) implies exists|j: int|
                        0 <= j < b.len() && (#[trigger] b[j]).key@ == k by {
                        if k == key@ {
                            assert(b[i as int].key@ == k);
                        } else {
                            let j = choose|j: int| 0 <= j < before.len() && (#[trigger] before[j]).key@ == k;
                            assert(b[j].key@ == k);
                        }
                    }
                }
            },
            None => {
                let mut ids: Vec<String> = Vec::new();
                ids.push(id.clone());
                self.buckets.push(IdBucket { key: key.clone(), ids });
                proof {
                    self.mapping@ = self.mapping@.insert(key@, Set::empty().insert(id@));
                    let b = self.buckets@;
                    let n = before.len() as int;
                    lemma_id_set_push(Seq::empty(), *id);
                    assert(Seq::<String>::empty().push(*id) =~= b[n].ids@);
                    assert(bucket_keys(b) =~= bucket_keys(before).push(*key));
                    assert forall|a: int, c: int| 0 <= a < c < bucket_keys(b).len()
                        implies bucket_keys(b)[a]@ != bucket_keys(b)[c]@ by {
                        if c == n {
                            assert(before[a].key@ != key@);
                        }
                    }
                    assert forall|j: int| 0 <= j < b.len() implies (#[trigger] b[j]).ids@.len() > 0
                        && distinct_views(b[j].ids@) && self.mapping@.contains_key(b[j].key@)
                        && self.mapping@[b[j].key@] == id_set(b[j].ids@) by {
                        if j < n {
                            assert(b[j] == before[j]);
                        }
                    }
                    assert forall|k: Seq<char>| self.mapping@.contains_key(k) implies exists|j: int|
                        0 <= j < b.len() && (#[trigger] b[j]).key@ == k by {
                        if k == key@ {
                            assert(b[n].key@ == k);
                        } else {
                            let j = choose|j: int| 0 <= j < before.len() && (#[trigger] before[j]).key@ == k;
                            assert(b[j].key@ == k);
                        }
                    }
                }
            },
        }
    }

    /// Takes `id` out of the bucket of `key`, dropping the bucket once empty.
    pub fn remove(&mut self, key: &String, id: &String)
        requires
            old(self).wf(),
        ensures
            final(self).wf(),
            final(self)@ == removed_from(old(self)@, key@, id@),
    {
        let ghost before = self.buckets@;
        let ghost m = self.mapping@;
        match self.find(key) {
            None => {},
            Some(i) => {
                let ghost old_ids = self.buckets@[i as int].ids@;
                assert(m[key@] == id_set(old_ids));
                match position_of(&self.buckets[i].ids, id) {
                    None => {
                        proof {
                            assert(m[key@].remove(id@) =~= m[key@]);
                            assert(id_set(old_ids).contains(old_ids[0]@));
                            assert(m.insert(key@, m[key@]) =~= m);
                        }
                    },
                    Some(j) => {
                        proof {
                            lemma_id_set_remove(old_ids, j as int);
                        }
                        if self.buckets[i].ids.len() == 1 {
                            self.buckets.remove(i);
                            proof {
                                self.mapping@ = m.remove(key@);
                                assert(old_ids.remove(j as int) =~= Seq::<String>::empty());
                                assert(id_set(Seq::<String>::empty()) =~= Set::<Seq<char>>::empty());
                                let b = self.buckets@;
                                assert(b =~= before.remove(i as int));
                                assert forall|a: int, c: int| 0 <= a < c < bucket_keys(b).len()
                                    implies bucket_keys(b)[a]@ != bucket_keys(b)[c]@ by {
                                    let ia = if a < i { a } else { a + 1 };
                                    let ic = if c < i { c } else { c + 1 };
                                    assert(b[a] == before[ia] && b[c] == before[ic]);
                                    assert(bucket_keys(before)[ia]@ != bucket_keys(before)[ic]@);
                                }
                                assert forall|x: int| 0 <= x < b.len() implies (#[trigger] b[x]).ids@.len() > 0
                                    && distinct_views(b[x].ids@) && self.mapping@.contains_key(b[x].key@)
                                    && self.mapping@[b[x].key@] == id_set(b[x].ids@) by {
                                    let ix = if x < i { x } else { x + 1 };
                                    assert(b[x] == before[ix]);
                                    assert(ix != i);
                                    if before[ix].key@ == key@ {
                                        self.lemma_keys_distinct_at(before, ix, i as int);
                                    }
                                }
                                assert forall|k: Seq<char>| self.mapping@.contains_key(k) implies exists|x: int|
                                    0 <= x < b.len() && (#[trigger] b[x]).key@ == k by {
                                    let w = choose|w: int| 0 <= w < before.len() && (#[trigger] before[w]).key@ == k;
                                    assert(w != i);
                                    if w < i {
                                        assert(b[w].key@ == k);
                                    } else {
                                        assert(b[w - 1].key@ == k);
                                    }
                                }
                            }
                        } else {
                            self.buckets[i].ids.remove(j);
                            proof {
                                let rest = old_ids.remove(j as int);
                                self.mapping@ = m.insert(key@, m[key@].remove(id@));
                                let b = self.buckets@;
                                assert(b[i as int].ids@ == rest);
                                assert(id_set(rest).contains(rest[0]@));
                                assert(bucket_keys(b) =~= bucket_keys(before));
                                assert forall|x: int| 0 <= x < b.len() implies (#[trigger] b[x]).ids@.len() > 0
                                    && distinct_views(b[x].ids@) && self.mapping@.contains_key(b[x].key@)
                                    && self.mapping@[b[x].key@] == id_set(b[x].ids@) by {
                                    if x != i {
                                        assert(b[x] == before[x]);
                                        if before[x].key@ == key@ {
                                            self.lemma_keys_distinct_at(before, x, i as int);
                                        }
                                    }
                                }
                                assert forall|k: Seq<char>| self.mapping@.contains_key(k) implies exists|x: int|
                                    0 <= x < b.len() && (#[trigger] b[x]).key@ == k by {
                                    let w = choose|w: int| 0 <= w < before.len() && (#[trigger] before[w]).key@ == k;
                                    assert(b[w].key@ == k);
                                }
                            }
                        }
                    },
                }
            },
        }
    }

    /// Two buckets with the same key are the same bucket.
    proof fn lemma_keys_distinct_at(&self, b: Seq<IdBucket>, i: int, j: int)
        requires
            distinct_views(bucket_keys(b)),
            0 <= i < b.len(),
            0 <= j < b.len(),
            b[i].key@ == b[j].key@,
        ensures
            i == j,
    {
        let keys = bucket_keys(b);
        if i < j {
            assert(keys[i]@ != keys[j]@);
        } else if j < i {
            assert(keys[j]@ != keys[i]@);
        }
    }

    /// The ids under `key`, as a vector without repeats.
    pub fn ids_of(&self, key: &String) -> (r: Vec<String>)
        requires
            self.wf(),
        ensures
            id_set(r@) == self.ids_under(key@),
            distinct_views(r@),
    {
        match self.find(key) {
            Some(i) => copy_strings(&self.buckets[i].ids),
            None => {
                let r: Vec<String> = Vec::new();
                assert(id_set(r@) =~= Set::<Seq<char>>::empty());
                r
            },
        }
    }

    /// The keys present, as a vector without repeats.
    pub fn keys(&self) -> (r: Vec<String>)
        requires
            self.wf(),
        ensures
            id_set(r@) == self@.dom(),
            distinct_views(r@),
    {
        let mut out: Vec<String> = Vec::new();
        let mut i: usize = 0;
        while i < self.buckets.len()
            invariant
                self.wf(),
                0 <= i <= self.buckets@.len(),
                out@ == bucket_keys(self.buckets@).subrange(0, i as int),
            decreases self.buckets@.len() - i,
        {
            out.push(self.buckets[i].key.clone());
            i = i + 1;
            proof {
                assert(bucket_keys(self.buckets@).subrange(0, i as int)
                    =~= bucket_keys(self.buckets@).subrange(0, i - 1).push(self.buckets@[i - 1].key));
            }
        }
        proof {
            let keys = bucket_keys(self.buckets@);
            assert(out@ =~= keys);
            assert forall|k: Seq<char>| id_set(out@).contains(k) <==> self@.dom().contains(k) by {
                if self@.dom().contains(k) {
                    let w = choose|w: int| 0 <= w < self.buckets@.len() && (#[trigger] self.buckets@[w]).key@ == k;
                    assert(keys[w]@ == k);
                }
                if id_set(out@).contains(k) {
                    let w = choose|w: int| 0 <= w < keys.len() && keys[w]@ == k;
                    assert(self.buckets@[w].key@ == k);
                }
            }
            assert(id_set(out@) =~= self@.dom());
        }
        out
    }

    /// Number of keys present.
    pub fn len(&self) -> (r: usize)
        requires
            self.wf(),
        ensures
            r == self@.dom().len(),
            self@.dom().finite(),
    {
        proof {
            let keys = bucket_keys(self.buckets@);
            assert forall|k: Seq<char>| id_set(keys).contains(k) <==> self@.dom().contains(k) by {
                if self@.dom().contains(k) {
                    let w = choose|w: int| 0 <= w < self.buckets@.len() && (#[trigger] self.buckets@[w]).key@ == k;
                    assert(keys[w]@ == k);
                }
                if id_set(keys).contains(k) {
                    let w = choose|w: int| 0 <= w < keys.len() && keys[w]@ == k;
                    assert(self.buckets@[w].key@ == k);
                }
            }
            assert(id_set(keys) =~= self@.dom());
            lemma_id_set_len(keys);
        }
        self.buckets.len()
    }
}

/// Key of the composite index: portal user, device and SSH user.
pub type CompositeKey = (Seq<char>, Seq<char>, Seq<char>);

/// One entry of the composite index.
pub struct CompositeSlot {
    pub portal_user_id: String,
    pub device_id: String,
    pub ssh_username: String,
    pub session_id: String,
}

impl CompositeSlot {
    /// The key the entry is filed under.
    pub open spec fn key(&self) -> CompositeKey {
        (self.portal_user_id@, self.device_id@, self.ssh_username@)
    }
}

/// A map from (portal user, device, SSH user) to one session id, kept as a
/// vector of entries with distinct keys.
pub struct CompositeIndex {
    slots: Vec<CompositeSlot>,
    mapping: Ghost<Map<CompositeKey, Seq<char>>>,
}

impl View for CompositeIndex {
    type V = Map<CompositeKey, Seq<char>>;

    closed spec fn view(&self) -> Map<CompositeKey, Seq<char>> {
        self.mapping@
    }
}

impl CompositeIndex {
    /// The entries agree with the map and their keys are distinct.
    pub closed spec fn wf(&self) -> bool {
        let s = self.slots@;
        &&& forall|i: int, j: int| 0 <= i < j < s.len() ==> s[i].key() != s[j].key()
        &&& forall|i: int|
            0 <= i < s.len() ==> self.mapping@.contains_key((#[trigger] s[i]).key())
                && self.mapping@[s[i].key()] == s[i].session_id@
        &&& forall|k: CompositeKey|
            self.mapping@.contains_key(k) ==> exists|i: int| 0 <= i < s.len() && (#[trigger] s[i]).key() == k
    }

    /// An empty index.
    pub fn new() -> (r: Self)
        ensures
            r.wf(),
            r@ == Map::<CompositeKey, Seq<char>>::empty(),
    {
        CompositeIndex { slots: Vec::new(), mapping: Ghost(Map::empty()) }
    }

    /// Position of the entry for the given key.
    fn find(&self, portal_user_id: &String, device_id: &String, ssh_username: &String) -> (r: Option<usize>)
        requires
            self.wf(),
        ensures
            match r {
                Some(i) => i < self.slots@.len() && self.slots@[i as int].key() == (
                portal_user_id@,
                device_id@,
                ssh_username@,
                ),
                None => !self@.contains_key((portal_user_id@, device_id@, ssh_username@)),
            },
    {
        let mut i: usize = 0;
        while i < self.slots.len()
            invariant
                self.wf(),
                0 <= i <= self.slots@.len(),
                forall|j: int|
                    0 <= j < i ==> (#[trigger] self.slots@[j]).key() != (portal_user_id@, device_id@, ssh_username@),
            decreases self.slots@.len() - i,
        {
            let slot = &self.slots[i];
            if slot.portal_user_id == *portal_user_id && slot.device_id == *device_id
                && slot.ssh_username == *ssh_username {
                return Some(i);
            }
            i = i + 1;
        }
        None
    }

    /// The session id filed under the key, if any.
    pub fn get(&self, portal_user_id: &String, device_id: &String, ssh_username: &String) -> (r: Option<String>)
        requires
            self.wf(),
        ensures
            match r {
                Some(id) => self@.contains_key((portal_user_id@, device_id@, ssh_username@))
                    && self@[(portal_user_id@, device_id@, ssh_username@)] == id@,
                None => !self@.contains_key((portal_user_id@, device_id@, ssh_username@)),
            },
    {
        match self.find(portal_user_id, device_id, ssh_username) {
            Some(i) => Some(self.slots[i].session_id.clone()),
            None => None,
        }
    }

    /// Files `session_id` under the key, replacing what was there.
    pub fn insert(&mut self, portal_user_id: &String, device_id: &String, ssh_username: &String, session_id: &String)
        requires
            old(self).wf(),
        ensures
            final(self).wf(),
            final(self)@ == old(self)@.insert((portal_user_id@, device_id@, ssh_username@), session_id@),
    {
        let ghost before = self.slots@;
        let ghost k = (portal_user_id@, device_id@, ssh_username@);
        match self.find(portal_user_id, device_id, ssh_username) {
            Some(i) => {
                self.slots[i].session_id = session_id.clone();
                proof {
                    self.mapping@ = self.mapping@.insert(k, session_id@);
                    let s = self.slots@;
                    assert forall|x: int| 0 <= x < s.len() implies self.mapping@.contains_key((#[trigger] s[x]).key())
                        && self.mapping@[s[x].key()] == s[x].session_id@ by {
                        if x != i {
                            assert(s[x] == before[x]);
                        }
                    }
                    assert forall|kk: CompositeKey| self.mapping@.contains_key(kk) implies exists|x: int|
                        0 <= x < s.len() && (#[trigger] s[x]).key() == kk by {
                        if kk == k {
                            assert(s[i as int].key() == kk);
                        } else {
                            let w = choose|w: int| 0 <= w < before.len() && (#[trigger] before[w]).key() == kk;
                            assert(s[w].key() == kk);
                        }
                    }
                }
            },
            None => {
                self.slots.push(
                    CompositeSlot {
                        portal_user_id: portal_user_id.clone(),
                        device_id: device_id.clone(),
                        ssh_username: ssh_username.clone(),
                        session_id: session_id.clone(),
                    },
                );
                proof {
                    self.mapping@ = self.mapping@.insert(k, session_id@);
                    let s = self.slots@;
                    let n = before.len() as int;
                    assert forall|x: int| 0 <= x < s.len() implies self.mapping@.contains_key((#[trigger] s[x]).key())
                        && self.mapping@[s[x].key()] == s[x].session_id@ by {
                        if x < n {
                            assert(s[x] == before[x]);
                        }
                    }
                    assert forall|kk: CompositeKey| self.mapping@.contains_key(kk) implies exists|x: int|
                        0 <= x < s.len() && (#[trigger] s[x]).key() == kk by {
                        if kk == k {
                            assert(s[n].key() == kk);
                        } else {
                            let w = choose|w: int| 0 <= w < before.len() && (#[trigger] before[w]).key() == kk;
                            assert(s[w].key() == kk);
                        }
                    }
                }
            },
        }
    }

    /// Drops the entry of the key where it names `session_id`.
    pub fn remove_if_names(
        &mut self,
        portal_user_id: &String,
        device_id: &String,
        ssh_username: &String,
        session_id: &String,
    )
        requires
            old(self).wf(),
        ensures
            final(self).wf(),
            final(self)@ == (if old(self)@.contains_key((portal_user_id@, device_id@, ssh_username@))
                && old(self)@[(portal_user_id@, device_id@, ssh_username@)] == session_id@ {
                old(self)@.remove((portal_user_id@, device_id@, ssh_username@))
            } else {
                old(self)@
            }),
    {
        let ghost before = self.slots@;
        let ghost k = (portal_user_id@, device_id@, ssh_username@);
        match self.find(portal_user_id, device_id, ssh_username) {
            Some(i) => {
                if self.slots[i].session_id == *session_id {
                    self.slots.remove(i);
                    proof {
                        self.mapping@ = self.mapping@.remove(k);
                        let s = self.slots@;
                        assert(s =~= before.remove(i as int));
                        assert forall|a: int, c: int| 0 <= a < c < s.len() implies s[a].key() != s[c].key() by {
                            let ia = if a < i { a } else { a + 1 };
                            let ic = if c < i { c } else { c + 1 };
                            assert(s[a] == before[ia] && s[c] == before[ic]);
                        }
                        assert forall|x: int| 0 <= x < s.len() implies self.mapping@.contains_key((#[trigger] s[x]).key())
                            && self.mapping@[s[x].key()] == s[x].session_id@ by {
                            let ix = if x < i { x } else { x + 1 };
                            assert(s[x] == before[ix]);
                            if before[ix].key() == k {
                                assert(ix == i);
                            }
                        }
                        assert forall|kk: CompositeKey| self.mapping@.contains_key(kk) implies exists|x: int|
                            0 <= x < s.len() && (#[trigger] s[x]).key() == kk by {
                            let w = choose|w: int| 0 <= w < before.len() && (#[trigger] before[w]).key() == kk;
                            assert(w != i);
                            if w < i {
                                assert(s[w].key() == kk);
                            } else {
                                assert(s[w - 1].key() == kk);
                            }
                        }
                    }
                }
            },
            None => {},
        }
    }
}

} // verus!
