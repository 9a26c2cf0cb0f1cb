//! Session records, the filter that decides which sessions matter, and the
//! rolling set of known session ids.

use vstd::prelude::*;
use crate::cache::AbridgedUser;
use crate::time::Timestamp;

verus! {

pub struct World {
    pub record_id: String,
    pub owner_id: String,
    pub is_valid: bool,
}

/// One participant of a session.
pub struct SessionUser {
    pub username: String,
    pub user_id: Option<String>,
    pub is_present: bool,
}

/// A live or recently ended multiplayer room, one snapshot per poll.
pub struct Session {
    pub name: Option<String>,
    pub description: Option<String>,
    pub corresponding_world_id: Option<World>,
    pub tags: Vec<String>,
    pub session_id: String,
    pub normalized_session_id: String,
    pub host_user_id: Option<String>,
    pub host_machine_id: String,
    pub host_username: String,
    pub compatibility_hash: String,
    pub universe_id: Option<String>,
    pub neos_version: String,
    pub headless_host: bool,
    pub session_urls: Vec<String>,
    pub session_users: Vec<SessionUser>,
    pub thumbnail: Option<String>,
    pub joined_users: i32,
    pub active_users: i32,
    pub max_users: i32,
    pub mobile_friendly: bool,
    pub session_begin_time: Timestamp,
    pub last_update: Timestamp,
    pub away_since: Option<String>,
    pub access_level: String,
    pub has_ended: bool,
    pub is_valid: bool,
}

/// A surviving session together with its resolved host profile, if any.
pub struct SessionWithHostInfo {
    pub session: Session,
    pub host_info: Option<AbridgedUser>,
}

pub open spec fn opt_view(o: Option<String>) -> Option<Seq<char>> {
    match o {
        Some(s) => Some(s@),
        None => None,
    }
}

/// Compares two optional strings by their character sequences.
pub fn opt_str_eq(a: &Option<String>, b: &Option<String>) -> (r: bool)
    ensures
        r == (opt_view(*a) == opt_view(*b)),
{
    match (a.as_ref(), b.as_ref()) {
        (Some(x), Some(y)) => x.eq(y),
        (None, None) => true,
        _ => false,
    }
}

impl SessionUser {
    /// A copy equal to the original.
    pub fn duplicate(&self) -> (r: SessionUser)
        ensures
            r == *self,
    {
        let user_id: Option<String> = match self.user_id.as_ref() {
            Some(s) => Some(s.clone()),
            None => None,
        };
        SessionUser { username: self.username.clone(), user_id, is_present: self.is_present }
    }
}

/// Whether participant `u` counts as the session's host: by user id when the
/// session names one, by username otherwise.
pub open spec fn host_match(
    u: SessionUser,
    host_user_id: Option<String>,
    host_username: Seq<char>,
) -> bool {
    match host_user_id {
        Some(hid) => match u.user_id {
            Some(uid) => uid@ == hid@,
            None => false,
        },
        None => u.username@ == host_username,
    }
}

/// Some participant is present and matches the host.
pub open spec fn host_present_spec(s: &Session) -> bool {
    exists|i: int|
        0 <= i < s.session_users@.len() && (#[trigger] s.session_users@[i]).is_present
            && host_match(s.session_users@[i], s.host_user_id, s.host_username@)
}

/// Decides whether the session's host is among its present participants.
#[verifier::loop_isolation(false)]
pub fn host_present(s: &Session) -> (r: bool)
    ensures
        r == host_present_spec(s),
{
    let n = s.session_users.len();
    let mut i: usize = 0;
    while i < n
        invariant
            i <= n,
            forall|j: int|
                0 <= j < i ==> !((#[trigger] s.session_users@[j]).is_present && host_match(
                    s.session_users@[j],
                    s.host_user_id,
                    s.host_username@,
                )),
        decreases n - i,
    {
        let u = &s.session_users[i];
        if u.is_present {
            let matched: bool = match (s.host_user_id.as_ref(), u.user_id.as_ref()) {
                (Some(hid), Some(uid)) => uid.eq(hid),
                (Some(_), None) => false,
                (None, _) => u.username.eq(&s.host_username),
            };
            if matched {
                proof {
                    assert(s.session_users@[i as int].is_present && host_match(
                        s.session_users@[i as int],
                        s.host_user_id,
                        s.host_username@,
                    ));
                }
                return true;
            }
        }
        i = i + 1;
    }
    false
}

/// A session whose directory record names a host id is host-present whenever a
/// present participant carries that id, whatever the usernames say.
pub proof fn lemma_host_presence_by_id(s: &Session, i: int)
    requires
        0 <= i < s.session_users@.len(),
        s.session_users@[i].is_present,
        s.host_user_id is Some,
        s.session_users@[i].user_id is Some,
        (s.session_users@[i].user_id->0)@ == (s.host_user_id->0)@,
    ensures
        host_present_spec(s),
{
    assert(s.session_users@[i].is_present && host_match(
        s.session_users@[i],
        s.host_user_id,
        s.host_username@,
    ));
}

/// A session without a host id falls back to matching by username.
pub proof fn lemma_host_presence_by_username(s: &Session, i: int)
    requires
        0 <= i < s.session_users@.len(),
        s.session_users@[i].is_present,
        s.host_user_id is None,
        s.session_users@[i].username@ == s.host_username@,
    ensures
        host_present_spec(s),
{
    assert(s.session_users@[i].is_present && host_match(
        s.session_users@[i],
        s.host_user_id,
        s.host_username@,
    ));
}

/// Whether a participant entry is the (headless) host's own entry: same
/// optional user id and same username.
pub open spec fn is_host_entry(
    u: SessionUser,
    host_user_id: Option<String>,
    host_username: Seq<char>,
) -> bool {
    opt_view(host_user_id) == opt_view(u.user_id) && host_username == u.username@
}

/// The participants that stand for real users: all of them, except that a
/// headless session's own host entry is dropped.
pub open spec fn headed_users_spec(
    users: Seq<SessionUser>,
    host_user_id: Option<String>,
    host_username: Seq<char>,
    headless: bool,
) -> Seq<SessionUser>
    decreases users.len(),
{
    if !headless {
        users
    } else if users.len() == 0 {
        Seq::empty()
    } else {
        let rest = headed_users_spec(users.drop_last(), host_user_id, host_username, true);
        if is_host_entry(users.last(), host_user_id, host_username) {
            rest
        } else {
            rest.push(users.last())
        }
    }
}

/// No host entry of a headless session survives into the headed list.
pub proof fn lemma_headless_host_excluded(
    users: Seq<SessionUser>,
    host_user_id: Option<String>,
    host_username: Seq<char>,
)
    ensures
        forall|j: int|
            0 <= j < headed_users_spec(users, host_user_id, host_username, true).len()
                ==> !is_host_entry(
                #[trigger] headed_users_spec(users, host_user_id, host_username, true)[j],
                host_user_id,
                host_username,
            ),
    decreases users.len(),
{
    if users.len() > 0 {
        lemma_headless_host_excluded(users.drop_last(), host_user_id, host_username);
        let rest = headed_users_spec(users.drop_last(), host_user_id, host_username, true);
        let all = headed_users_spec(users, host_user_id, host_username, true);
        assert forall|j: int| 0 <= j < all.len() implies !is_host_entry(
            all[j],
            host_user_id,
            host_username,
        ) by {
            if is_host_entry(users.last(), host_user_id, host_username) {
                assert(all[j] == rest[j]);
            } else {
                if j < rest.len() {
                    assert(all[j] == rest[j]);
                } else {
                    assert(all[j] == users.last());
                }
            }
        }
    }
}

impl Session {
    /// The participant entries that stand for real users (the headless host's
    /// own entry is a service account, not a user).
    #[verifier::loop_isolation(false)]
    pub fn headed_users(&self) -> (r: Vec<SessionUser>)
        ensures
            r@ == headed_users_spec(
                self.session_users@,
                self.host_user_id,
                self.host_username@,
                self.headless_host,
            ),
    {
        let mut out: Vec<SessionUser> = Vec::new();
        let n = self.session_users.len();
        let mut i: usize = 0;
        while i < n
            invariant
                i <= n,
                out@ == headed_users_spec(
                    self.session_users@.subrange(0, i as int),
                    self.host_user_id,
                    self.host_username@,
                    self.headless_host,
                ),
            decreases n - i,
        {
            let u = &self.session_users[i];
            let keep: bool = if self.headless_host {
                !(opt_str_eq(&self.host_user_id, &u.user_id) && self.host_username.eq(&u.username))
            } else {
                true
            };
            if keep {
                out.push(u.duplicate());
            }
            proof {
                let pre = self.session_users@.subrange(0, i as int);
                let cur = self.session_users@.subrange(0, i + 1 as int);
                assert(cur.drop_last() =~= pre);
                assert(cur.last() == self.session_users@[i as int]);
                if !self.headless_host {
                    assert(out@ =~= cur);
                }
            }
            i = i + 1;
        }
        proof {
            assert(self.session_users@.subrange(0, n as int) =~= self.session_users@);
        }
        out
    }
}

/// A host counts as new when no profile resolved, or when the account is
/// younger than seven days at `now`.
pub open spec fn host_is_new_spec(host_info: Option<AbridgedUser>, now: Timestamp) -> bool {
    match host_info {
        None => true,
        Some(h) => now.abs_secs() - h.registration_date.abs_secs() < 604800,
    }
}

pub fn host_is_new(host_info: &Option<AbridgedUser>, now: &Timestamp) -> (r: bool)
    requires
        now.wf(),
        match *host_info {
            Some(h) => h.wf(),
            None => true,
        },
    ensures
        r == host_is_new_spec(*host_info, *now),
{
    match host_info.as_ref() {
        None => true,
        Some(h) => now.to_abs_secs() - h.registration_date.to_abs_secs() < 604800,
    }
}

pub open spec fn starts_with_spec(s: Seq<char>, p: Seq<char>) -> bool {
    p.len() <= s.len() && s.subrange(0, p.len() as int) == p
}

/// Whether `s` begins with `p`, character by character.
#[verifier::loop_isolation(false)]
pub fn str_starts_with(s: &str, p: &str) -> (r: bool)
    ensures
        r == starts_with_spec(s@, p@),
{
    let sl = s.unicode_len();
    let pl = p.unicode_len();
    if pl > sl {
        return false;
    }
    let mut i: usize = 0;
    while i < pl
        invariant
            i <= pl,
            forall|j: int| 0 <= j < i ==> s@[j] == p@[j],
        decreases pl - i,
    {
        if s.get_char(i) != p.get_char(i) {
            proof {
                assert(s@.subrange(0, p@.len() as int)[i as int] != p@[i as int]);
            }
            return false;
        }
        i = i + 1;
    }
    proof {
        assert(s@.subrange(0, p@.len() as int) =~= p@);
    }
    true
}

/// The fixed set of world-name prefixes that mark a session as a training
/// world (world ids change on republish, so names are matched instead).
pub open spec fn recognized_name_spec(name: Seq<char>) -> bool {
    ||| starts_with_spec(name, "MTC"@)
    ||| starts_with_spec(name, "Metaverse Training"@)
    ||| starts_with_spec(name, "Neos Hub"@)
    ||| starts_with_spec(name, "The Avatar Station"@)
    ||| starts_with_spec(name, "Training"@)
}

pub fn recognized_name(name: &str) -> (r: bool)
    ensures
        r == recognized_name_spec(name@),
{
    str_starts_with(name, "MTC") || str_starts_with(name, "Metaverse Training") || str_starts_with(
        name,
        "Neos Hub",
    ) || str_starts_with(name, "The Avatar Station") || str_starts_with(name, "Training")
}

pub open spec fn name_recognized(name: Option<String>) -> bool {
    match name {
        Some(n) => recognized_name_spec(n@),
        None => false,
    }
}

/// Which sessions matter: valid, not ended, populated, host present, and
/// either a fresh host or a recognized training-world name.
pub open spec fn session_interesting_spec(
    s: &Session,
    host_info: Option<AbridgedUser>,
    now: Timestamp,
) -> bool {
    &&& s.is_valid
    &&& !s.has_ended
    &&& s.active_users > 0
    &&& host_present_spec(s)
    &&& (host_is_new_spec(host_info, now) || name_recognized(s.name))
}

/// Decides whether a fetched session is kept for the report.
pub fn session_interesting(s: &Session, host_info: &Option<AbridgedUser>, now: &Timestamp) -> (r:
    bool)
    requires
        now.wf(),
        match *host_info {
            Some(h) => h.wf(),
            None => true,
        },
    ensures
        r == session_interesting_spec(s, *host_info, *now),
{
    if !s.is_valid || s.has_ended || s.active_users <= 0 {
        return false;
    }
    if !host_present(s) {
        return false;
    }
    if host_is_new(host_info, now) {
        return true;
    }
    match s.name.as_ref() {
        Some(n) => recognized_name(n.as_str()),
        None => false,
    }
}

/// The session ids present in the most recent successful poll.
pub struct SessionIdSet {
    pub ids: Vec<String>,
}

/// The set of id views a sequence of id strings stands for.
pub open spec fn id_set_of(ids: Seq<String>) -> Set<Seq<char>> {
    Set::new(|k: Seq<char>| exists|i: int| 0 <= i < ids.len() && (#[trigger] ids[i])@ == k)
}

/// Whether a poll whose surviving ids are `next` contains an id absent from
/// the previous poll's set `prev`.
pub open spec fn notify_spec(prev: Seq<String>, next: Seq<String>) -> bool {
    exists|i: int| 0 <= i < next.len() && !id_set_of(prev).contains((#[trigger] next[i])@)
}

/// Whether some element of `v` views as `s`.
#[verifier::loop_isolation(false)]
fn contains_str(v: &Vec<String>, s: &String) -> (r: bool)
    ensures
        r == id_set_of(v@).contains(s@),
{
    let n = v.len();
    let mut i: usize = 0;
    while i < n
        invariant
            i <= n,
            forall|j: int| 0 <= j < i ==> (#[trigger] v@[j])@ != s@,
        decreases n - i,
    {
        if v[i].eq(s) {
            proof {
                assert(v@[i as int]@ == s@);
            }
            return true;
        }
        i = i + 1;
    }
    false
}

impl SessionIdSet {
    pub open spec fn id_set(self) -> Set<Seq<char>> {
        id_set_of(self.ids@)
    }

    pub fn new() -> (r: SessionIdSet)
        ensures
            r.ids@ =~= Seq::<String>::empty(),
            r.id_set() =~= Set::<Seq<char>>::empty(),
    {
        let r = SessionIdSet { ids: Vec::new() };
        proof {
            assert forall|k: Seq<char>| !r.id_set().contains(k) by {}
        }
        r
    }

    /// One poll's outcome: reports whether any of `new_ids` was unknown, and
    /// replaces the whole set with `new_ids` (last poll wins, no merge).
    #[verifier::loop_isolation(false)]
    pub fn update(&mut self, new_ids: Vec<String>) -> (notify: bool)
        ensures
            final(self).ids@ == new_ids@,
            notify == notify_spec(old(self).ids@, new_ids@),
    {
        let mut notify = false;
        let n = new_ids.len();
        let mut i: usize = 0;
        while i < n
            invariant
                i <= n,
                *self == *old(self),
                notify == exists|j: int|
                    0 <= j < i && !id_set_of(self.ids@).contains((#[trigger] new_ids@[j])@),
            decreases n - i,
        {
            if !notify && !contains_str(&self.ids, &new_ids[i]) {
                notify = true;
                proof {
                    assert(0 <= i < new_ids@.len() && !id_set_of(self.ids@).contains(
                        new_ids@[i as int]@,
                    ));
                }
            }
            i = i + 1;
        }
        self.ids = new_ids;
        notify
    }
}

/// The id views of the surviving sessions, in order.
pub open spec fn ids_of(sessions: Seq<SessionWithHostInfo>) -> Seq<Seq<char>> {
    sessions.map_values(|x: SessionWithHostInfo| x.session.session_id@)
}

/// Collects the surviving sessions' ids for the known-session-id set.
#[verifier::loop_isolation(false)]
pub fn session_ids(sessions: &Vec<SessionWithHostInfo>) -> (r: Vec<String>)
    ensures
        r@.map_values(|s: String| s@) == ids_of(sessions@),
{
    let mut out: Vec<String> = Vec::new();
    let n = sessions.len();
    let mut i: usize = 0;
    proof {
        assert(out@.map_values(|s: String| s@) =~= ids_of(sessions@.subrange(0, 0)));
    }
    while i < n
        invariant
            i <= n,
            n == sessions@.len(),
            out@.map_values(|s: String| s@) == ids_of(sessions@.subrange(0, i as int)),
        decreases n - i,
    {
        out.push(sessions[i].session.session_id.clone());
        proof {
            let ghost pre = sessions@.subrange(0, i as int);
            let ghost cur = sessions@.subrange(0, i + 1 as int);
            assert forall|k: int| 0 <= k < i + 1 implies out@.map_values(|s: String| s@)[k]
                == ids_of(cur)[k] by {
                if k < i {
                    assert(ids_of(pre)[k] == ids_of(cur)[k]);
                } else {
                    assert(out@[k] == sessions@[i as int].session.session_id);
                }
            }
            assert(out@.map_values(|s: String| s@) =~= ids_of(cur));
        }
        i = i + 1;
    }
    proof {
        assert(sessions@.subrange(0, n as int) =~= sessions@);
    }
    out
}

/// The notification flag rises exactly when the new poll's id set is not
/// contained in the previous one: two polls with identical filtered sets
/// raise nothing, one new id raises it.
pub proof fn lemma_notification_flag(prev: Seq<String>, next: Seq<String>)
    ensures
        notify_spec(prev, next) <==> !id_set_of(next).subset_of(id_set_of(prev)),
{
    if notify_spec(prev, next) {
        let i = choose|i: int|
            0 <= i < next.len() && !id_set_of(prev).contains((#[trigger] next[i])@);
        assert(id_set_of(next).contains(next[i]@));
        assert(!id_set_of(next).subset_of(id_set_of(prev)));
    }
    if !id_set_of(next).subset_of(id_set_of(prev)) {
        let k = choose|k: Seq<char>|
            id_set_of(next).contains(k) && !#[trigger] id_set_of(prev).contains(k);
        let i = choose|i: int| 0 <= i < next.len() && (#[trigger] next[i])@ == k;
        assert(0 <= i < next.len() && !id_set_of(prev).contains(next[i]@));
        assert(notify_spec(prev, next));
    }
}

} // verus!
