//! Process-wide directory of live sessions, indexed by session id, by
//! portal user, by device and by (portal user, device, SSH user).
//!
//! The registry is modelled by `sessions()`, a map from session id to the
//! identifying fields and last activity of the session. The two secondary
//! indices are, at every observation point, exactly the grouping of that
//! map by portal user and by device; the composite index only names live
//! sessions filed under their own key.
use vstd::prelude::*;
use crate::text::joined;
use crate::index::{
    distinct_views, id_set, lemma_id_set_len, removed_from, set_under, CompositeIndex,
    CompositeKey, IdIndex,
};

verus! {

/// What the registry needs of an SSH session it owns. An implementation
/// promises that `close` leaves the session ended.
pub trait SessionHandle {
    /// The session has been ended.
    spec fn is_closed(&self) -> bool;

    /// Ends the session. Failures are the handle's to report; the registry
    /// goes on with its removal either way.
    fn close(&mut self)
        ensures
            final(self).is_closed(),
    ;
}

/// `after` is `before` with one more entry: the handle of session `id`,
/// closed.
pub open spec fn closed_once<S: SessionHandle>(
    before: Seq<(Seq<char>, S)>,
    after: Seq<(Seq<char>, S)>,
    id: Seq<char>,
) -> bool {
    &&& after.len() == before.len() + 1
    &&& after.drop_last() == before
    &&& after.last().0 == id
    &&& after.last().1.is_closed()
}

/// The session ids of the entries of `log` from position `from` on.
pub open spec fn logged_ids<S>(log: Seq<(Seq<char>, S)>, from: int) -> Set<Seq<char>> {
    Set::new(|x: Seq<char>| exists|i: int| from <= i < log.len() && log[i].0 == x)
}

/// `after` is `before` followed by `n` entries, each a closed handle, whose
/// session ids are exactly `ids`.
pub open spec fn closed_all<S: SessionHandle>(
    before: Seq<(Seq<char>, S)>,
    after: Seq<(Seq<char>, S)>,
    ids: Set<Seq<char>>,
    n: int,
) -> bool {
    &&& after.len() == before.len() + n
    &&& after.subrange(0, before.len() as int) == before
    &&& forall|i: int| before.len() <= i < after.len() ==> (#[trigger] after[i]).1.is_closed()
    &&& logged_ids(after, before.len() as int) == ids
}

/// One live session.
pub struct SessionInfo<S> {
    pub portal_user_id: String,
    pub device_id: String,
    pub ssh_username: String,
    pub ssh_session: S,
    /// Time of the last lookup, in milliseconds of the caller's clock.
    pub last_activity: u64,
}

/// What the registry knows of a session, apart from its handle.
pub struct SessionRecord {
    pub portal_user_id: Seq<char>,
    pub device_id: Seq<char>,
    pub ssh_username: Seq<char>,
    pub last_activity: u64,
}

impl<S> SessionInfo<S> {
    /// What the registry knows of this session.
    pub open spec fn record(&self) -> SessionRecord {
        SessionRecord {
            portal_user_id: self.portal_user_id@,
            device_id: self.device_id@,
            ssh_username: self.ssh_username@,
            last_activity: self.last_activity,
        }
    }
}

impl SessionRecord {
    /// The key of this session in the composite index.
    pub open spec fn composite_key(&self) -> CompositeKey {
        (self.portal_user_id, self.device_id, self.ssh_username)
    }
}

/// Selects the portal user of a record.
pub open spec fn by_portal_user() -> spec_fn(SessionRecord) -> Seq<char> {
    |r: SessionRecord| r.portal_user_id
}

/// Selects the device of a record.
pub open spec fn by_device() -> spec_fn(SessionRecord) -> Seq<char> {
    |r: SessionRecord| r.device_id
}

/// The sessions of `m` grouped by the key that `f` selects: each key that
/// some session has maps to the set of ids of the sessions that have it.
pub open spec fn grouped(
    m: Map<Seq<char>, SessionRecord>,
    f: spec_fn(SessionRecord) -> Seq<char>,
) -> Map<Seq<char>, Set<Seq<char>>> {
    Map::new(
        |k: Seq<char>| exists|id: Seq<char>| m.contains_key(id) && f(m[id]) == k,
        |k: Seq<char>| Set::new(|id: Seq<char>| m.contains_key(id) && f(m[id]) == k),
    )
}

/// Every entry of the composite index names a session of `m` whose own
/// key is the entry's key.
pub open spec fn composite_names_live(
    m: Map<Seq<char>, SessionRecord>,
    c: Map<CompositeKey, Seq<char>>,
) -> bool {
    forall|k: CompositeKey|
        #[trigger] c.contains_key(k) ==> m.contains_key(c[k]) && m[c[k]].composite_key() == k
}

/// The composite index once the session `id` of `m` is gone: its entry is
/// dropped where it names `id`.
pub open spec fn composite_without(
    c: Map<CompositeKey, Seq<char>>,
    m: Map<Seq<char>, SessionRecord>,
    id: Seq<char>,
) -> Map<CompositeKey, Seq<char>> {
    if m.contains_key(id) && c.contains_key(m[id].composite_key()) && c[m[id].composite_key()]
        == id {
        c.remove(m[id].composite_key())
    } else {
        c
    }
}

/// The composite index without the entries that name an id of `gone`.
pub open spec fn composite_dropping(c: Map<CompositeKey, Seq<char>>, gone: Set<Seq<char>>) -> Map<
    CompositeKey,
    Seq<char>,
> {
    Map::new(|k: CompositeKey| c.contains_key(k) && !gone.contains(c[k]), |k: CompositeKey| c[k])
}

/// The record of a new session.
pub open spec fn fresh_record(
    portal_user_id: Seq<char>,
    device_id: Seq<char>,
    ssh_username: Seq<char>,
    now: u64,
) -> SessionRecord {
    SessionRecord { portal_user_id, device_id, ssh_username, last_activity: now }
}

/// The later of two times.
pub open spec fn later(a: u64, b: u64) -> u64 {
    if a >= b {
        a
    } else {
        b
    }
}

/// `r` with its activity stamped at `now`; the stamp never moves back.
pub open spec fn touched(r: SessionRecord, now: u64) -> SessionRecord {
    SessionRecord { last_activity: later(r.last_activity, now), ..r }
}

/// How long a session last active at `last` has been idle at `now`; zero
/// where `now` is not after `last`.
pub open spec fn idle_for(last: u64, now: u64) -> int {
    if now >= last {
        now - last
    } else {
        0
    }
}

/// A session idle for longer than `max_idle` at `now`.
pub open spec fn is_stale(r: SessionRecord, max_idle: u64, now: u64) -> bool {
    idle_for(r.last_activity, now) > max_idle
}

/// The ids of the sessions of `m` that are stale at `now`.
pub open spec fn stale_ids(m: Map<Seq<char>, SessionRecord>, max_idle: u64, now: u64) -> Set<
    Seq<char>,
> {
    m.dom().filter(|id: Seq<char>| is_stale(m[id], max_idle, now))
}

/// The ids of the sessions of `m` whose key, as `f` selects it, is `k`.
pub open spec fn sessions_with(
    m: Map<Seq<char>, SessionRecord>,
    f: spec_fn(SessionRecord) -> Seq<char>,
    k: Seq<char>,
) -> Set<Seq<char>> {
    Set::new(|id: Seq<char>| m.contains_key(id) && f(m[id]) == k)
}

/// The group of a key, empty where the key is absent, holds the sessions
/// that have that key.
pub proof fn lemma_set_under_grouped(
    m: Map<Seq<char>, SessionRecord>,
    f: spec_fn(SessionRecord) -> Seq<char>,
    k: Seq<char>,
)
    ensures
        set_under(grouped(m, f), k) == sessions_with(m, f, k),
{
    assert(set_under(grouped(m, f), k) =~= sessions_with(m, f, k));
}

/// Filing a new session adds its id to the group of its key.
pub proof fn lemma_grouped_insert(
    m: Map<Seq<char>, SessionRecord>,
    f: spec_fn(SessionRecord) -> Seq<char>,
    id: Seq<char>,
    r: SessionRecord,
)
    requires
        !m.contains_key(id),
    ensures
        grouped(m.insert(id, r), f) == grouped(m, f).insert(
            f(r),
            set_under(grouped(m, f), f(r)).insert(id),
        ),
{
    let g = grouped(m, f);
    let m2 = m.insert(id, r);
    let lhs = grouped(m2, f);
    let rhs = g.insert(f(r), set_under(g, f(r)).insert(id));
    assert forall|k: Seq<char>| lhs.contains_key(k) <==> rhs.contains_key(k) by {
        if lhs.contains_key(k) && k != f(r) {
            let w = choose|w: Seq<char>| m2.contains_key(w) && f(m2[w]) == k;
            assert(m.contains_key(w) && f(m[w]) == k);
        }
        if rhs.contains_key(k) && k != f(r) {
            let w = choose|w: Seq<char>| m.contains_key(w) && f(m[w]) == k;
            assert(m2.contains_key(w) && f(m2[w]) == k);
        }
        if k == f(r) {
            assert(m2.contains_key(id) && f(m2[id]) == k);
        }
    }
    assert forall|k: Seq<char>| lhs.contains_key(k) implies lhs[k] == rhs[k] by {
        assert(lhs[k] =~= rhs[k]);
    }
    assert(lhs =~= rhs);
}

/// Dropping a session takes its id out of the group of its key, and drops
/// the group once empty.
pub proof fn lemma_grouped_remove(
    m: Map<Seq<char>, SessionRecord>,
    f: spec_fn(SessionRecord) -> Seq<char>,
    id: Seq<char>,
)
    requires
        m.contains_key(id),
    ensures
        grouped(m.remove(id), f) == removed_from(grouped(m, f), f(m[id]), id),
{
    let g = grouped(m, f);
    let m2 = m.remove(id);
    let key = f(m[id]);
    let lhs = grouped(m2, f);
    let rhs = removed_from(g, key, id);
    assert(g.contains_key(key));
    assert forall|k: Seq<char>| lhs.contains_key(k) <==> rhs.contains_key(k) by {
        if lhs.contains_key(k) {
            let w = choose|w: Seq<char>| m2.contains_key(w) && f(m2[w]) == k;
            assert(m.contains_key(w) && f(m[w]) == k);
            if k == key {
                assert(g[key].remove(id).contains(w));
                assert(g[key].remove(id) != Set::<Seq<char>>::empty());
            }
        }
        if rhs.contains_key(k) {
            if k == key {
                let rest = g[key].remove(id);
                assert(rest != Set::<Seq<char>>::empty());
                if !(exists|w: Seq<char>| rest.contains(w)) {
                    assert(rest =~= Set::<Seq<char>>::empty());
                }
                let w = choose|w: Seq<char>| rest.contains(w);
                assert(m2.contains_key(w) && f(m2[w]) == k);
            } else {
                let w = choose|w: Seq<char>| m.contains_key(w) && f(m[w]) == k;
                assert(m2.contains_key(w) && f(m2[w]) == k);
            }
        }
    }
    assert forall|k: Seq<char>| lhs.contains_key(k) implies lhs[k] == rhs[k] by {
        assert(lhs[k] =~= rhs[k]);
    }
    assert(lhs =~= rhs);
}

/// Changing a session without changing its key leaves the grouping as is.
pub proof fn lemma_grouped_same_key(
    m: Map<Seq<char>, SessionRecord>,
    f: spec_fn(SessionRecord) -> Seq<char>,
    id: Seq<char>,
    r: SessionRecord,
)
    requires
        m.contains_key(id),
        f(r) == f(m[id]),
    ensures
        grouped(m.insert(id, r), f) == grouped(m, f),
{
    let m2 = m.insert(id, r);
    let lhs = grouped(m2, f);
    let rhs = grouped(m, f);
    assert forall|k: Seq<char>| lhs.contains_key(k) <==> rhs.contains_key(k) by {
        if lhs.contains_key(k) {
            let w = choose|w: Seq<char>| m2.contains_key(w) && f(m2[w]) == k;
            assert(m.contains_key(w) && f(m[w]) == k);
        }
        if rhs.contains_key(k) {
            let w = choose|w: Seq<char>| m.contains_key(w) && f(m[w]) == k;
            assert(m2.contains_key(w) && f(m2[w]) == k);
        }
    }
    assert forall|k: Seq<char>| lhs.contains_key(k) implies lhs[k] == rhs[k] by {
        assert(lhs[k] =~= rhs[k]);
    }
    assert(lhs =~= rhs);
}

/// The id given to a session of a portal user on a device under an SSH
/// user, made unique by `unique`:
/// `portal-{portal_user_id}-device-{device_id}-ssh-{ssh_username}-{unique}`.
pub open spec fn session_id_text(
    portal_user_id: Seq<char>,
    device_id: Seq<char>,
    ssh_username: Seq<char>,
    unique: Seq<char>,
) -> Seq<char> {
    "portal-"@ + portal_user_id + "-device-"@ + device_id + "-ssh-"@ + ssh_username + "-"@ + unique
}

/// Builds the session id of `session_id_text`.
pub fn session_id_for(portal_user_id: &str, device_id: &str, ssh_username: &str, unique: &str) -> (r:
    String)
    ensures
        r@ == session_id_text(portal_user_id@, device_id@, ssh_username@, unique@),
{
    let a = joined("portal-", portal_user_id);
    let b = joined(a.as_str(), "-device-");
    let c = joined(b.as_str(), device_id);
    let d = joined(c.as_str(), "-ssh-");
    let e = joined(d.as_str(), ssh_username);
    let f = joined(e.as_str(), "-");
    joined(f.as_str(), unique)
}

/// A lower-case hexadecimal digit.
pub open spec fn is_lower_hex(c: char) -> bool {
    ('0' <= c && c <= '9') || ('a' <= c && c <= 'f')
}

/// The hyphenated lower-case text of a version-4 UUID: 36 characters, `-`
/// at positions 8, 13, 18 and 23, hexadecimal digits elsewhere, the version
/// digit `4` at position 14 and a variant digit of `8`, `9`, `a` or `b` at
/// position 19.
pub open spec fn uuid_v4_text(u: Seq<char>) -> bool {
    &&& u.len() == 36
    &&& forall|i: int| 0 <= i < 36 ==> if i == 8 || i == 13 || i == 18 || i == 23 {
        u[i] == '-'
    } else {
        is_lower_hex(#[trigger] u[i])
    }
    &&& u[14] == '4'
    &&& u[19] == '8' || u[19] == '9' || u[19] == 'a' || u[19] == 'b'
}

/// Relies on uuid's `Uuid::new_v4`, which sets the version and variant bits
/// of a random value, and on its `Display` form, the hyphenated lower-case
/// text. Which UUID comes out is left open.
#[verifier::external_body]
pub(crate) fn random_uuid_text() -> (r: String)
    ensures
        uuid_v4_text(r@),
{
    uuid::Uuid::new_v4().to_string()
}

/// A session and the id it is filed under.
struct SessionSlot<S> {
    session_id: String,
    info: SessionInfo<S>,
}

/// The session registry.
pub struct SessionRegistry<S> {
    sessions: Vec<SessionSlot<S>>,
    portal_user_sessions: IdIndex,
    device_sessions: IdIndex,
    composite_key_sessions: CompositeIndex,
    records: Ghost<Map<Seq<char>, SessionRecord>>,
    closed_log: Ghost<Seq<(Seq<char>, S)>>,
}

impl<S: SessionHandle> SessionRegistry<S> {
    /// The primary map: session id to what is known of the session.
    pub closed spec fn sessions(&self) -> Map<Seq<char>, SessionRecord> {
        self.records@
    }

    /// The portal-user index: portal user to the ids of its sessions.
    pub closed spec fn portal_index(&self) -> Map<Seq<char>, Set<Seq<char>>> {
        self.portal_user_sessions@
    }

    /// The device index: device to the ids of its sessions.
    pub closed spec fn device_index(&self) -> Map<Seq<char>, Set<Seq<char>>> {
        self.device_sessions@
    }

    /// The composite index: (portal user, device, SSH user) to a session id.
    pub closed spec fn composite_index(&self) -> Map<CompositeKey, Seq<char>> {
        self.composite_key_sessions@
    }

    /// Every handle the registry has closed on removing its session, in
    /// order, with the id of that session.
    pub closed spec fn closed_handles(&self) -> Seq<(Seq<char>, S)> {
        self.closed_log@
    }

    /// The portal-user and device indices are the groupings of the primary
    /// map by portal user and by device, and every composite entry names a
    /// live session filed under its own key.
    pub open spec fn indices_agree(&self) -> bool {
        &&& self.portal_index() == grouped(self.sessions(), by_portal_user())
        &&& self.device_index() == grouped(self.sessions(), by_device())
        &&& composite_names_live(self.sessions(), self.composite_index())
    }

    /// The slots agree with the primary map, the secondary indices are its
    /// groupings, and the composite index names live sessions only.
    pub closed spec fn wf(&self) -> bool {
        let s = self.sessions@;
        let m = self.records@;
        &&& forall|i: int, j: int| 0 <= i < j < s.len() ==> s[i].session_id@ != s[j].session_id@
        &&& forall|i: int|
            0 <= i < s.len() ==> m.contains_key((#[trigger] s[i]).session_id@) && m[s[i].session_id@]
                == s[i].info.record()
        &&& forall|id: Seq<char>|
            m.contains_key(id) ==> exists|i: int| 0 <= i < s.len() && (#[trigger] s[i]).session_id@ == id
        &&& self.portal_user_sessions.wf()
        &&& self.portal_user_sessions@ == grouped(m, by_portal_user())
        &&& self.device_sessions.wf()
        &&& self.device_sessions@ == grouped(m, by_device())
        &&& self.composite_key_sessions.wf()
        &&& composite_names_live(m, self.composite_key_sessions@)
    }

    /// Creates an empty registry.
    pub fn new() -> (r: Self)
        ensures
            r.wf(),
            r.indices_agree(),
            r.closed_handles() == Seq::<(Seq<char>, S)>::empty(),
            r.sessions() == Map::<Seq<char>, SessionRecord>::empty(),
            r.composite_index() == Map::<CompositeKey, Seq<char>>::empty(),
    {
        let r = SessionRegistry {
            sessions: Vec::new(),
            portal_user_sessions: IdIndex::new(),
            device_sessions: IdIndex::new(),
            composite_key_sessions: CompositeIndex::new(),
            records: Ghost(Map::empty()),
            closed_log: Ghost(Seq::empty()),
        };
        proof {
            let m = Map::<Seq<char>, SessionRecord>::empty();
            assert(grouped(m, by_portal_user()) =~= Map::empty());
            assert(grouped(m, by_device()) =~= Map::empty());
        }
        r
    }

    /// Position of the slot of `id`.
    fn find(&self, id: &String) -> (r: Option<usize>)
        requires
            self.wf(),
        ensures
            match r {
                Some(i) => i < self.sessions@.len() && self.sessions@[i as int].session_id@ == id@
                    && self.sessions().contains_key(id@),
                None => !self.sessions().contains_key(id@),
            },
    {
        let mut i: usize = 0;
        while i < self.sessions.len()
            invariant
                self.wf(),
                0 <= i <= self.sessions@.len(),
                forall|j: int| 0 <= j < i ==> (#[trigger] self.sessions@[j]).session_id@ != id@,
            decreases self.sessions@.len() - i,
        {
            if self.sessions[i].session_id == *id {
                return Some(i);
            }
            i = i + 1;
        }
        None
    }

    /// Files a session under an id that is not in use.
    fn insert_fresh(&mut self, id: String, info: SessionInfo<S>)
        requires
            old(self).wf(),
            !old(self).sessions().contains_key(id@),
        ensures
            final(self).wf(),
            final(self).sessions() == old(self).sessions().insert(id@, info.record()),
            final(self).closed_handles() == old(self).closed_handles(),
            final(self).composite_index() == old(self).composite_index().insert(
                info.record().composite_key(),
                id@,
            ),
    {
        let ghost m = self.records@;
        let ghost before = self.sessions@;
        let ghost rec = info.record();
        proof {
            assert(!set_under(grouped(m, by_portal_user()), rec.portal_user_id).contains(id@));
            assert(!set_under(grouped(m, by_device()), rec.device_id).contains(id@));
        }
        self.portal_user_sessions.insert(&info.portal_user_id, &id);
        self.device_sessions.insert(&info.device_id, &id);
        self.composite_key_sessions.insert(&info.portal_user_id, &info.device_id, &info.ssh_username, &id);
        self.sessions.push(SessionSlot { session_id: id, info });
        proof {
            let m2 = m.insert(id@, rec);
            self.records@ = m2;
            lemma_grouped_insert(m, by_portal_user(), id@, rec);
            lemma_grouped_insert(m, by_device(), id@, rec);
            let s = self.sessions@;
            let n = before.len() as int;
            assert(s[n].session_id@ == id@);
            assert forall|a: int, b: int| 0 <= a < b < s.len() implies s[a].session_id@ != s[b].session_id@ by {
                if b == n {
                    assert(s[a] == before[a]);
                    assert(m.contains_key(before[a].session_id@));
                } else {
                    assert(s[a] == before[a] && s[b] == before[b]);
                }
            }
            assert forall|i: int| 0 <= i < s.len() implies m2.contains_key((#[trigger] s[i]).session_id@)
                && m2[s[i].session_id@] == s[i].info.record() by {
                if i < n {
                    assert(s[i] == before[i]);
                    assert(m.contains_key(before[i].session_id@));
                }
            }
            assert forall|x: Seq<char>| m2.contains_key(x) implies exists|i: int|
                0 <= i < s.len() && (#[trigger] s[i]).session_id@ == x by {
                if x == id@ {
                    assert(s[n].session_id@ == x);
                } else {
                    let w = choose|w: int| 0 <= w < before.len() && (#[trigger] before[w]).session_id@ == x;
                    assert(s[w] == before[w]);
                }
            }
            let c2 = self.composite_key_sessions@;
            assert forall|k: CompositeKey| #[trigger] c2.contains_key(k) implies m2.contains_key(c2[k])
                && m2[c2[k]].composite_key() == k by {
                if k != rec.composite_key() {
                    assert(m.contains_key(c2[k]));
                    assert(c2[k] != id@);
                }
            }
        }
    }

    /// Removes the session `id` from the registry and from every index,
    /// closing its SSH handle first. Returns whether it was present.
    pub fn remove_session(&mut self, session_id: &str) -> (r: bool)
        requires
            old(self).wf(),
        ensures
            final(self).wf(),
            final(self).indices_agree(),
            r == old(self).sessions().contains_key(session_id@),
            final(self).sessions() == old(self).sessions().remove(session_id@),
            r ==> closed_once(old(self).closed_handles(), final(self).closed_handles(), session_id@),
            !r ==> final(self).closed_handles() == old(self).closed_handles(),
            final(self).composite_index() == composite_without(
                old(self).composite_index(),
                old(self).sessions(),
                session_id@,
            ),
    {
        let id = session_id.to_owned();
        match self.find(&id) {
            None => {
                proof {
                    assert(self.records@.remove(id@) =~= self.records@);
                }
                false
            },
            Some(i) => {
                let ghost m = self.records@;
                let ghost before = self.sessions@;
                let ghost c = self.composite_key_sessions@;
                let mut slot = self.sessions.remove(i);
                slot.info.ssh_session.close();
                proof {
                    assert(slot.info.record() == m[id@]);
                    let log = self.closed_log@;
                    self.closed_log@ = log.push((id@, slot.info.ssh_session));
                    assert(self.closed_log@.drop_last() =~= log);
                }
                self.portal_user_sessions.remove(&slot.info.portal_user_id, &id);
                self.device_sessions.remove(&slot.info.device_id, &id);
                self.composite_key_sessions.remove_if_names(
                    &slot.info.portal_user_id,
                    &slot.info.device_id,
                    &slot.info.ssh_username,
                    &id,
                );
                proof {
                    let m2 = m.remove(id@);
                    self.records@ = m2;
                    lemma_grouped_remove(m, by_portal_user(), id@);
                    lemma_grouped_remove(m, by_device(), id@);
                    let s = self.sessions@;
                    assert(s =~= before.remove(i as int));
                    assert forall|a: int, b: int| 0 <= a < b < s.len() implies s[a].session_id@ != s[b].session_id@ by {
                        let ia = if a < i { a } else { a + 1 };
                        let ib = if b < i { b } else { b + 1 };
                        assert(s[a] == before[ia] && s[b] == before[ib]);
                    }
                    assert forall|x: int| 0 <= x < s.len() implies m2.contains_key((#[trigger] s[x]).session_id@)
                        && m2[s[x].session_id@] == s[x].info.record() by {
                        let ix = if x < i { x } else { x + 1 };
                        assert(s[x] == before[ix]);
                        assert(before[ix].session_id@ != before[i as int].session_id@);
                    }
                    assert forall|x: Seq<char>| m2.contains_key(x) implies exists|j: int|
                        0 <= j < s.len() && (#[trigger] s[j]).session_id@ == x by {
                        let w = choose|w: int| 0 <= w < before.len() && (#[trigger] before[w]).session_id@ == x;
                        assert(w != i);
                        if w < i {
                            assert(s[w] == before[w]);
                        } else {
                            assert(s[w - 1] == before[w]);
                        }
                    }
                    let c2 = self.composite_key_sessions@;
                    assert forall|k: CompositeKey| #[trigger] c2.contains_key(k) implies m2.contains_key(c2[k])
                        && m2[c2[k]].composite_key() == k by {
                        assert(c.contains_key(k) && c2[k] == c[k]);
                        assert(m.contains_key(c[k]));
                        if c[k] == id@ {
                            assert(m[id@].composite_key() == k);
                        }
                    }
                }
                true
            },
        }
    }

    /// Stamps the activity of the session in slot `i` at `now`.
    fn touch_slot(&mut self, i: usize, now: u64)
        requires
            old(self).wf(),
            i < old(self).sessions@.len(),
        ensures
            final(self).wf(),
            final(self).sessions@.len() == old(self).sessions@.len(),
            final(self).sessions@[i as int].session_id == old(self).sessions@[i as int].session_id,
            final(self).sessions@[i as int].info.record() == touched(old(self).sessions@[i as int].info.record(), now),
            final(self).sessions() == old(self).sessions().insert(
                old(self).sessions@[i as int].session_id@,
                touched(old(self).sessions@[i as int].info.record(), now),
            ),
            final(self).composite_index() == old(self).composite_index(),
            final(self).closed_handles() == old(self).closed_handles(),
    {
        let ghost m = self.records@;
        let ghost before = self.sessions@;
        let ghost id = before[i as int].session_id@;
        let ghost rec = touched(before[i as int].info.record(), now);
        let last = self.sessions[i].info.last_activity;
        let stamp = if last >= now { last } else { now };
        self.sessions[i].info.last_activity = stamp;
        proof {
            let m2 = m.insert(id, rec);
            self.records@ = m2;
            lemma_grouped_same_key(m, by_portal_user(), id, rec);
            lemma_grouped_same_key(m, by_device(), id, rec);
            let s = self.sessions@;
            assert forall|a: int, b: int| 0 <= a < b < s.len() implies s[a].session_id@ != s[b].session_id@ by {
                assert(s[a].session_id == before[a].session_id && s[b].session_id == before[b].session_id);
            }
            assert forall|x: int| 0 <= x < s.len() implies m2.contains_key((#[trigger] s[x]).session_id@)
                && m2[s[x].session_id@] == s[x].info.record() by {
                if x != i {
                    assert(s[x] == before[x]);
                    assert(before[x].session_id@ != id);
                }
            }
            assert forall|x: Seq<char>| m2.contains_key(x) implies exists|j: int|
                0 <= j < s.len() && (#[trigger] s[j]).session_id@ == x by {
                let w = choose|w: int| 0 <= w < before.len() && (#[trigger] before[w]).session_id@ == x;
                assert(s[w].session_id == before[w].session_id);
            }
            let c = self.composite_key_sessions@;
            assert forall|k: CompositeKey| #[trigger] c.contains_key(k) implies m2.contains_key(c[k])
                && m2[c[k]].composite_key() == k by {
                assert(m.contains_key(c[k]));
            }
        }
    }

    /// Looks a session up by id. A hit stamps its activity at `now`; the
    /// stamp never moves back.
    pub fn get_session(&mut self, session_id: &str, now: u64) -> (r: Option<&SessionInfo<S>>)
        requires
            old(self).wf(),
        ensures
            final(self).wf(),
            final(self).sessions() == (if old(self).sessions().contains_key(session_id@) {
                old(self).sessions().insert(session_id@, touched(old(self).sessions()[session_id@], now))
            } else {
                old(self).sessions()
            }),
            final(self).composite_index() == old(self).composite_index(),
            final(self).closed_handles() == old(self).closed_handles(),
            final(self).indices_agree(),
            old(self).sessions().contains_key(session_id@) ==> final(self).sessions()[session_id@].last_activity
                >= old(self).sessions()[session_id@].last_activity,
            match r {
                Some(info) => old(self).sessions().contains_key(session_id@) && info.record()
                    == final(self).sessions()[session_id@],
                None => !old(self).sessions().contains_key(session_id@),
            },
    {
        let id = session_id.to_owned();
        match self.find(&id) {
            Some(i) => {
                self.touch_slot(i, now);
                Some(&self.sessions[i].info)
            },
            None => None,
        }
    }

    /// Enrolls a session under the id built from its identifying fields and
    /// `unique`, stamped active at `now`, and returns that id. A session
    /// already filed under the same id is removed (and closed) first.
    pub fn add_session_with_uuid(
        &mut self,
        portal_user_id: &str,
        device_id: &str,
        ssh_username: &str,
        ssh_session: S,
        unique: &str,
        now: u64,
    ) -> (r: String)
        requires
            old(self).wf(),
        ensures
            final(self).wf(),
            final(self).indices_agree(),
            final(self).portal_index().contains_key(portal_user_id@),
            final(self).portal_index()[portal_user_id@].contains(r@),
            final(self).device_index().contains_key(device_id@),
            final(self).device_index()[device_id@].contains(r@),
            old(self).sessions().contains_key(r@) ==> closed_once(
                old(self).closed_handles(),
                final(self).closed_handles(),
                r@,
            ),
            !old(self).sessions().contains_key(r@) ==> final(self).closed_handles()
                == old(self).closed_handles(),
            r@ == session_id_text(portal_user_id@, device_id@, ssh_username@, unique@),
            final(self).sessions() == old(self).sessions().insert(
                r@,
                fresh_record(portal_user_id@, device_id@, ssh_username@, now),
            ),
            final(self).composite_index() == composite_without(
                old(self).composite_index(),
                old(self).sessions(),
                r@,
            ).insert((portal_user_id@, device_id@, ssh_username@), r@),
    {
        let session_id = session_id_for(portal_user_id, device_id, ssh_username, unique);
        let ghost m = self.records@;
        self.remove_session(session_id.as_str());
        proof {
            assert(m.remove(session_id@).insert(session_id@, fresh_record(portal_user_id@, device_id@, ssh_username@, now))
                =~= m.insert(session_id@, fresh_record(portal_user_id@, device_id@, ssh_username@, now)));
        }
        let info = SessionInfo {
            portal_user_id: portal_user_id.to_owned(),
            device_id: device_id.to_owned(),
            ssh_username: ssh_username.to_owned(),
            ssh_session,
            last_activity: now,
        };
        self.insert_fresh(session_id.clone(), info);
        proof {
            let m2 = self.records@;
            assert(m2.contains_key(session_id@) && by_portal_user()(m2[session_id@]) == portal_user_id@);
            assert(m2.contains_key(session_id@) && by_device()(m2[session_id@]) == device_id@);
        }
        session_id
    }

    /// Enrolls a session under a fresh id of the form of
    /// `session_id_text`, ending in a random UUID, stamped active at `now`.
    pub fn add_session(
        &mut self,
        portal_user_id: &str,
        device_id: &str,
        ssh_username: &str,
        ssh_session: S,
        now: u64,
    ) -> (r: String)
        requires
            old(self).wf(),
        ensures
            final(self).wf(),
            final(self).indices_agree(),
            final(self).portal_index().contains_key(portal_user_id@),
            final(self).portal_index()[portal_user_id@].contains(r@),
            final(self).device_index().contains_key(device_id@),
            final(self).device_index()[device_id@].contains(r@),
            old(self).sessions().contains_key(r@) ==> closed_once(
                old(self).closed_handles(),
                final(self).closed_handles(),
                r@,
            ),
            !old(self).sessions().contains_key(r@) ==> final(self).closed_handles()
                == old(self).closed_handles(),
            exists|unique: Seq<char>| uuid_v4_text(unique) && r@ == session_id_text(
                portal_user_id@,
                device_id@,
                ssh_username@,
                unique,
            ),
            final(self).sessions() == old(self).sessions().insert(
                r@,
                fresh_record(portal_user_id@, device_id@, ssh_username@, now),
            ),
            final(self).composite_index() == composite_without(
                old(self).composite_index(),
                old(self).sessions(),
                r@,
            ).insert((portal_user_id@, device_id@, ssh_username@), r@),
    {
        let unique = random_uuid_text();
        self.add_session_with_uuid(portal_user_id, device_id, ssh_username, ssh_session, unique.as_str(), now)
    }

    /// Looks a session up by (portal user, device, SSH user). A hit stamps
    /// its activity at `now` and returns its id with it.
    pub fn get_session_by_composite_key(
        &mut self,
        portal_user_id: &str,
        device_id: &str,
        ssh_username: &str,
        now: u64,
    ) -> (r: Option<(String, &SessionInfo<S>)>)
        requires
            old(self).wf(),
        ensures
            final(self).wf(),
            final(self).indices_agree(),
            final(self).composite_index() == old(self).composite_index(),
            final(self).closed_handles() == old(self).closed_handles(),
            ({
                let k = (portal_user_id@, device_id@, ssh_username@);
                let c = old(self).composite_index();
                let m = old(self).sessions();
                &&& c.contains_key(k) ==> final(self).sessions() == m.insert(c[k], touched(m[c[k]], now))
                &&& !c.contains_key(k) ==> final(self).sessions() == m
                &&& match r {
                    Some((id, info)) => c.contains_key(k) && id@ == c[k] && info.record()
                        == final(self).sessions()[id@] && info.record().composite_key() == k,
                    None => !c.contains_key(k),
                }
            }),
    {
        let p = portal_user_id.to_owned();
        let d = device_id.to_owned();
        let u = ssh_username.to_owned();
        match self.composite_key_sessions.get(&p, &d, &u) {
            Some(id) => {
                match self.find(&id) {
                    Some(i) => {
                        self.touch_slot(i, now);
                        Some((id, &self.sessions[i].info))
                    },
                    None => None,
                }
            },
            None => None,
        }
    }

    /// Ids of all sessions, without repeats.
    pub fn get_all_sessions(&self) -> (r: Vec<String>)
        requires
            self.wf(),
        ensures
            id_set(r@) == self.sessions().dom(),
            distinct_views(r@),
    {
        let mut out: Vec<String> = Vec::new();
        let mut i: usize = 0;
        while i < self.sessions.len()
            invariant
                self.wf(),
                0 <= i <= self.sessions@.len(),
                out@.len() == i,
                forall|j: int| 0 <= j < i ==> (#[trigger] out@[j])@ == self.sessions@[j].session_id@,
            decreases self.sessions@.len() - i,
        {
            out.push(self.sessions[i].session_id.clone());
            i = i + 1;
        }
        proof {
            let s = self.sessions@;
            assert forall|a: int, b: int| 0 <= a < b < out@.len() implies out@[a]@ != out@[b]@ by {
                assert(s[a].session_id@ != s[b].session_id@);
            }
            assert forall|x: Seq<char>| id_set(out@).contains(x) <==> self.sessions().dom().contains(x) by {
                if self.sessions().dom().contains(x) {
                    let w = choose|w: int| 0 <= w < s.len() && (#[trigger] s[w]).session_id@ == x;
                    assert(out@[w]@ == x);
                }
                if id_set(out@).contains(x) {
                    let w = choose|w: int| 0 <= w < out@.len() && out@[w]@ == x;
                    assert(s[w].session_id@ == x);
                }
            }
            assert(id_set(out@) =~= self.sessions().dom());
        }
        out
    }

    /// Ids of the sessions of a portal user, without repeats.
    pub fn get_portal_user_sessions(&self, portal_user_id: &str) -> (r: Vec<String>)
        requires
            self.wf(),
        ensures
            id_set(r@) == set_under(self.portal_index(), portal_user_id@),
            id_set(r@) == sessions_with(self.sessions(), by_portal_user(), portal_user_id@),
            distinct_views(r@),
    {
        proof {
            lemma_set_under_grouped(self.sessions(), by_portal_user(), portal_user_id@);
        }
        self.portal_user_sessions.ids_of(&portal_user_id.to_owned())
    }

    /// Ids of the sessions on a device, without repeats.
    pub fn get_device_sessions(&self, device_id: &str) -> (r: Vec<String>)
        requires
            self.wf(),
        ensures
            id_set(r@) == set_under(self.device_index(), device_id@),
            id_set(r@) == sessions_with(self.sessions(), by_device(), device_id@),
            distinct_views(r@),
    {
        proof {
            lemma_set_under_grouped(self.sessions(), by_device(), device_id@);
        }
        self.device_sessions.ids_of(&device_id.to_owned())
    }

    /// The portal users that have sessions, without repeats.
    pub fn get_all_portal_user_ids(&self) -> (r: Vec<String>)
        requires
            self.wf(),
        ensures
            id_set(r@) == self.portal_index().dom(),
            distinct_views(r@),
    {
        self.portal_user_sessions.keys()
    }

    /// Number of sessions.
    pub fn total_sessions(&self) -> (r: usize)
        requires
            self.wf(),
        ensures
            r == self.sessions().len(),
    {
        proof {
            let s = self.sessions@;
            let ids = s.map_values(|x: SessionSlot<S>| x.session_id);
            assert forall|a: int, b: int| 0 <= a < b < ids.len() implies ids[a]@ != ids[b]@ by {
                assert(s[a].session_id@ != s[b].session_id@);
            }
            assert forall|x: Seq<char>| id_set(ids).contains(x) <==> self.sessions().dom().contains(x) by {
                if self.sessions().dom().contains(x) {
                    let w = choose|w: int| 0 <= w < s.len() && (#[trigger] s[w]).session_id@ == x;
                    assert(ids[w]@ == x);
                }
                if id_set(ids).contains(x) {
                    let w = choose|w: int| 0 <= w < ids.len() && ids[w]@ == x;
                    assert(s[w].session_id@ == x);
                }
            }
            assert(id_set(ids) =~= self.sessions().dom());
            lemma_id_set_len(ids);
        }
        self.sessions.len()
    }

    /// Number of portal users with sessions.
    pub fn total_portal_users(&self) -> (r: usize)
        requires
            self.wf(),
        ensures
            r == self.portal_index().len(),
            r == grouped(self.sessions(), by_portal_user()).len(),
    {
        self.portal_user_sessions.len()
    }

    /// Number of devices with sessions.
    pub fn total_devices(&self) -> (r: usize)
        requires
            self.wf(),
        ensures
            r == self.device_index().len(),
            r == grouped(self.sessions(), by_device()).len(),
    {
        self.device_sessions.len()
    }

    /// Ids of the sessions that are stale at `now`, without repeats.
    fn collect_stale(&self, max_idle: u64, now: u64) -> (r: Vec<String>)
        requires
            self.wf(),
        ensures
            id_set(r@) == stale_ids(self.sessions(), max_idle, now),
            distinct_views(r@),
    {
        let ghost m = self.records@;
        let ghost s = self.sessions@;
        let mut out: Vec<String> = Vec::new();
        let mut i: usize = 0;
        while i < self.sessions.len()
            invariant
                self.wf(),
                self.records@ == m,
                self.sessions@ == s,
                0 <= i <= s.len(),
                distinct_views(out@),
                forall|a: int| #![trigger out@[a]] 0 <= a < out@.len() ==> exists|j: int|
                    0 <= j < i && (#[trigger] s[j]).session_id@ == out@[a]@,
                id_set(out@) == Set::new(|x: Seq<char>| exists|j: int|
                    0 <= j < i && (#[trigger] s[j]).session_id@ == x && is_stale(s[j].info.record(), max_idle, now)),
            decreases s.len() - i,
        {
            let last = self.sessions[i].info.last_activity;
            let idle: u64 = if now >= last { now - last } else { 0 };
            let ghost prev = out@;
            if idle > max_idle {
                out.push(self.sessions[i].session_id.clone());
                proof {
                    crate::index::lemma_id_set_push(prev, s[i as int].session_id);
                    assert forall|a: int, b: int| 0 <= a < b < out@.len() implies out@[a]@ != out@[b]@ by {
                        if b == prev.len() {
                            let j = choose|j: int| 0 <= j < i && (#[trigger] s[j]).session_id@ == prev[a]@;
                            assert(s[j].session_id@ != s[i as int].session_id@);
                        } else {
                            assert(out@[a] == prev[a] && out@[b] == prev[b]);
                        }
                    }
                    assert forall|a: int| #![trigger out@[a]] 0 <= a < out@.len() implies exists|j: int|
                        0 <= j < i + 1 && (#[trigger] s[j]).session_id@ == out@[a]@ by {
                        if a == prev.len() {
                            assert(s[i as int].session_id@ == out@[a]@);
                        } else {
                            assert(out@[a] == prev[a]);
                            let j = choose|j: int| 0 <= j < i && (#[trigger] s[j]).session_id@ == prev[a]@;
                        }
                    }
                }
            }
            proof {
                let target = Set::new(|x: Seq<char>| exists|j: int|
                    0 <= j < i + 1 && (#[trigger] s[j]).session_id@ == x && is_stale(s[j].info.record(), max_idle, now));
                let earlier = Set::new(|x: Seq<char>| exists|j: int|
                    0 <= j < i && (#[trigger] s[j]).session_id@ == x && is_stale(s[j].info.record(), max_idle, now));
                assert forall|x: Seq<char>| id_set(out@).contains(x) <==> target.contains(x) by {
                    if target.contains(x) {
                        let j = choose|j: int| 0 <= j < i + 1 && (#[trigger] s[j]).session_id@ == x && is_stale(s[j].info.record(), max_idle, now);
                        if j < i {
                            assert(earlier.contains(x));
                        }
                    }
                    if id_set(out@).contains(x) && !id_set(prev).contains(x) {
                        assert(x == s[i as int].session_id@);
                    }
                    if id_set(prev).contains(x) {
                        assert(earlier.contains(x));
                        let j = choose|j: int| 0 <= j < i && (#[trigger] s[j]).session_id@ == x && is_stale(s[j].info.record(), max_idle, now);
                        assert(target.contains(x));
                    }
                }
                assert(id_set(out@) =~= target);
            }
            i = i + 1;
        }
        proof {
            let target = stale_ids(m, max_idle, now);
            assert forall|x: Seq<char>| id_set(out@).contains(x) <==> target.contains(x) by {
                if target.contains(x) {
                    let j = choose|j: int| 0 <= j < s.len() && (#[trigger] s[j]).session_id@ == x;
                    assert(m[x] == s[j].info.record());
                }
                if id_set(out@).contains(x) {
                    let j = choose|j: int| 0 <= j < s.len() && (#[trigger] s[j]).session_id@ == x && is_stale(s[j].info.record(), max_idle, now);
                    assert(m.contains_key(x) && m[x] == s[j].info.record());
                }
            }
            assert(id_set(out@) =~= target);
        }
        out
    }

    /// Removes (and closes) every session idle for longer than `max_idle`
    /// at `now`, and returns how many there were.
    pub fn cleanup_stale_sessions(&mut self, max_idle: u64, now: u64) -> (r: usize)
        requires
            old(self).wf(),
        ensures
            final(self).wf(),
            r == stale_ids(old(self).sessions(), max_idle, now).len(),
            final(self).sessions() == old(self).sessions().remove_keys(
                stale_ids(old(self).sessions(), max_idle, now),
            ),
            final(self).composite_index() == composite_dropping(
                old(self).composite_index(),
                stale_ids(old(self).sessions(), max_idle, now),
            ),
            final(self).indices_agree(),
            closed_all(
                old(self).closed_handles(),
                final(self).closed_handles(),
                stale_ids(old(self).sessions(), max_idle, now),
                r as int,
            ),
    {
        let ghost m = self.records@;
        let ghost c = self.composite_key_sessions@;
        let stale = self.collect_stale(max_idle, now);
        let ghost gone = stale_ids(m, max_idle, now);
        let ghost log0 = self.closed_log@;
        proof {
            assert(logged_ids(log0, log0.len() as int) =~= id_set(stale@.subrange(0, 0)));
            assert(log0.subrange(0, log0.len() as int) =~= log0);
            lemma_id_set_len(stale@);
            assert(m.remove_keys(id_set(stale@.subrange(0, 0))) =~= m) by {
                assert(id_set(stale@.subrange(0, 0)) =~= Set::<Seq<char>>::empty());
            }
            assert(composite_dropping(c, id_set(stale@.subrange(0, 0))) =~= c) by {
                assert(id_set(stale@.subrange(0, 0)) =~= Set::<Seq<char>>::empty());
            }
        }
        let mut k: usize = 0;
        while k < stale.len()
            invariant
                self.wf(),
                0 <= k <= stale@.len(),
                distinct_views(stale@),
                id_set(stale@) == gone,
                gone.subset_of(m.dom()),
                composite_names_live(m, c),
                self.sessions() == m.remove_keys(id_set(stale@.subrange(0, k as int))),
                self.composite_index() == composite_dropping(c, id_set(stale@.subrange(0, k as int))),
                closed_all(log0, self.closed_log@, id_set(stale@.subrange(0, k as int)), k as int),
            decreases stale@.len() - k,
        {
            let ghost done = id_set(stale@.subrange(0, k as int));
            let ghost id = stale@[k as int]@;
            let ghost mk = self.sessions();
            let ghost ck = self.composite_index();
            let ghost prev = self.closed_log@;
            proof {
                assert(gone.contains(id));
                assert(!done.contains(id)) by {
                    if done.contains(id) {
                        let j = choose|j: int| 0 <= j < k && stale@.subrange(0, k as int)[j]@ == id;
                        assert(stale@[j]@ == stale@[k as int]@);
                    }
                }
                assert(mk.contains_key(id));
            }
            self.remove_session(stale[k].as_str());
            k = k + 1;
            proof {
                let next = id_set(stale@.subrange(0, k as int));
                assert(stale@.subrange(0, k as int) =~= stale@.subrange(0, k - 1).push(stale@[k - 1]));
                crate::index::lemma_id_set_push(stale@.subrange(0, k - 1), stale@[k - 1]);
                assert(next == done.insert(id));
                assert(mk.remove(id) =~= m.remove_keys(next));
                let lhs = composite_without(ck, mk, id);
                let rhs = composite_dropping(c, next);
                assert forall|key: CompositeKey| lhs.contains_key(key) <==> rhs.contains_key(key) by {
                    if c.contains_key(key) && c[key] == id {
                        assert(m[id].composite_key() == key);
                    }
                }
                assert forall|key: CompositeKey| lhs.contains_key(key) implies lhs[key] == rhs[key] by {}
                assert(lhs =~= rhs);
                let cur = self.closed_log@;
                assert(cur.subrange(0, log0.len() as int) =~= log0) by {
                    assert(cur.drop_last() == prev);
                    assert(prev.subrange(0, log0.len() as int) == log0);
                }
                assert forall|i: int| log0.len() <= i < cur.len() implies (#[trigger] cur[i]).1.is_closed() by {
                    if i < prev.len() {
                        assert(cur[i] == cur.drop_last()[i]);
                    }
                }
                assert forall|x: Seq<char>| logged_ids(cur, log0.len() as int).contains(x)
                    <==> logged_ids(prev, log0.len() as int).insert(id).contains(x) by {
                    if logged_ids(cur, log0.len() as int).contains(x) {
                        let i = choose|i: int| log0.len() <= i < cur.len() && cur[i].0 == x;
                        if i < prev.len() {
                            assert(cur[i] == cur.drop_last()[i]);
                        }
                    }
                    if logged_ids(prev, log0.len() as int).contains(x) {
                        let i = choose|i: int| log0.len() <= i < prev.len() && prev[i].0 == x;
                        assert(cur[i] == cur.drop_last()[i]);
                    }
                    if x == id {
                        assert(cur[cur.len() - 1].0 == x);
                    }
                }
                assert(logged_ids(cur, log0.len() as int) =~= next);
            }
        }
        proof {
            assert(stale@.subrange(0, stale@.len() as int) =~= stale@);
        }
        stale.len()
    }
}

/// In every well-formed registry the portal-user and device indices are
/// the groupings of the primary map by portal user and by device, and every
/// composite entry names a live session filed under its own key.
pub proof fn lemma_wf_indices<S: SessionHandle>(reg: &SessionRegistry<S>)
    requires
        reg.wf(),
    ensures
        reg.indices_agree(),
        reg.portal_index() == grouped(reg.sessions(), by_portal_user()),
        reg.device_index() == grouped(reg.sessions(), by_device()),
        composite_names_live(reg.sessions(), reg.composite_index()),
{
}

/// Every id held by the portal-user, device or composite index is a key of
/// the primary map, and no portal-user or device bucket is empty. This
/// holds of every well-formed registry: `new` returns one, and every method
/// that changes a registry keeps it so.
pub proof fn lemma_indices_name_live_sessions<S: SessionHandle>(reg: &SessionRegistry<S>)
    requires
        reg.wf(),
    ensures
        forall|p: Seq<char>| #[trigger] reg.portal_index().contains_key(p)
            ==> reg.portal_index()[p] != Set::<Seq<char>>::empty()
                && reg.portal_index()[p].subset_of(reg.sessions().dom()),
        forall|d: Seq<char>| #[trigger] reg.device_index().contains_key(d)
            ==> reg.device_index()[d] != Set::<Seq<char>>::empty()
                && reg.device_index()[d].subset_of(reg.sessions().dom()),
        forall|k: CompositeKey| #[trigger] reg.composite_index().contains_key(k)
            ==> reg.sessions().contains_key(reg.composite_index()[k]),
{
    let m = reg.sessions();
    assert forall|p: Seq<char>| #[trigger] reg.portal_index().contains_key(p) implies
        reg.portal_index()[p] != Set::<Seq<char>>::empty() && reg.portal_index()[p].subset_of(m.dom()) by {
        let g = grouped(m, by_portal_user());
        let w = choose|w: Seq<char>| m.contains_key(w) && by_portal_user()(m[w]) == p;
        assert(g[p].contains(w));
    }
    assert forall|d: Seq<char>| #[trigger] reg.device_index().contains_key(d) implies
        reg.device_index()[d] != Set::<Seq<char>>::empty() && reg.device_index()[d].subset_of(m.dom()) by {
        let g = grouped(m, by_device());
        let w = choose|w: Seq<char>| m.contains_key(w) && by_device()(m[w]) == d;
        assert(g[d].contains(w));
    }
}

/// Removing a session just added finds it; removing it again does not.
/// `added` is the primary map after `add_session` returned `id`, and
/// `removed` the map after the first `remove_session(id)`; each removal
/// returns whether its map held `id`.
pub proof fn lemma_remove_after_add(
    before: Map<Seq<char>, SessionRecord>,
    added: Map<Seq<char>, SessionRecord>,
    removed: Map<Seq<char>, SessionRecord>,
    id: Seq<char>,
    record: SessionRecord,
)
    requires
        added == before.insert(id, record),
        removed == added.remove(id),
    ensures
        added.contains_key(id),
        !removed.contains_key(id),
{
}

/// A lookup never moves the activity stamp of a session back, and leaves
/// it no earlier than the time of the lookup.
pub proof fn lemma_lookup_activity_monotone(record: SessionRecord, now: u64)
    ensures
        touched(record, now).last_activity >= record.last_activity,
        touched(record, now).last_activity >= now,
        touched(record, now).composite_key() == record.composite_key(),
{
}

/// A registry holding one session, last active at `t`, loses exactly that
/// session to a reap at `max_idle` plus one second after `t`, and the reap
/// counts one.
pub proof fn lemma_reap_of_single_idle_session(
    id: Seq<char>,
    record: SessionRecord,
    max_idle: u64,
    now: u64,
)
    requires
        now == record.last_activity + max_idle + 1000,
    ensures
        stale_ids(Map::empty().insert(id, record), max_idle, now) == Set::empty().insert(id),
        stale_ids(Map::empty().insert(id, record), max_idle, now).len() == 1,
        Map::empty().insert(id, record).remove_keys(stale_ids(Map::empty().insert(id, record), max_idle, now))
            == Map::<Seq<char>, SessionRecord>::empty(),
{
    let m = Map::<Seq<char>, SessionRecord>::empty().insert(id, record);
    assert(stale_ids(m, max_idle, now) =~= Set::empty().insert(id));
    assert(m.remove_keys(Set::empty().insert(id)) =~= Map::<Seq<char>, SessionRecord>::empty());
}

} // verus!
