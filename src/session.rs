//! The registry of authenticated remote sessions and the list of saved
//! connection profiles.
//!
//! The registry owns each session's transport handle `H`. A handle leaves the
//! registry only by being moved out of it (by `disconnect`, `disconnect_all`
//! or an idle sweep), so each handle is handed back for release exactly once.
//!
//! Saved profiles are keyed by `(host, port, username)` and never share a
//! key: saving a profile replaces the one with its key, and a successful
//! connection adds its profile only when no saved profile has that key, so
//! repeated connections to one target do not pile up duplicates and keep a
//! display name given earlier.
use vstd::prelude::*;
use crate::keyed::{
    Keyed, keys_unique, keyed_map, has_key, find_key, lemma_keyed_map_dom,
    lemma_keyed_map_index, lemma_keyed_map_push, lemma_keyed_map_remove,
};
use crate::text::{decimal, decimal_string, lemma_decimal_injective, signed_decimal, signed_decimal_string};

verus! {

/// Public description of a live session.
#[derive(Debug)]
pub struct SshConnectionInfo {
    pub host: String,
    pub port: u16,
    pub username: String,
    pub connection_id: String,
    pub connected_at: u64,
    pub last_activity: u64,
}

/// What is needed to open a session. The password is used for one
/// authentication and is never stored.
pub struct SshConnectionRequest {
    pub host: String,
    pub port: u16,
    pub username: String,
    pub password: String,
}

/// A saved, password-free connection profile. Its key is
/// `(host, port, username)`.
#[derive(Debug)]
pub struct SavedSshConnection {
    pub host: String,
    pub port: u16,
    pub username: String,
    pub name: Option<String>,
}

/// A session taken out of the registry, with its transport handle to release.
pub struct Released<H> {
    pub info: SshConnectionInfo,
    pub session: H,
}

#[derive(Debug)]
pub enum SshError {
    /// No session has the given identifier.
    NotFound,
    /// Every identifier has been handed out.
    IdsExhausted,
    /// The remote command ended with a non-zero exit status.
    CommandFailed { exit_status: i32, output: String },
}

struct SshConnection<H> {
    info: SshConnectionInfo,
    serial: u64,
    session: H,
}

/// The registry: live sessions keyed by identifier, the identifier counter,
/// and the saved profiles.
pub struct SshClient<H> {
    connections: Vec<Keyed<SshConnection<H>>>,
    connection_counter: u64,
    saved_connections: Vec<SavedSshConnection>,
}

pub open spec fn connection_id_prefix() -> Seq<char> {
    seq!['s', 's', 'h', '_', 'c', 'o', 'n', 'n', '_']
}

/// The identifier given to the session opened with serial number `n`.
pub open spec fn connection_id_text(n: nat) -> Seq<char> {
    connection_id_prefix() + decimal(n)
}

/// Distinct serial numbers give distinct identifiers.
pub proof fn lemma_connection_ids_distinct(a: nat, b: nat)
    requires
        a != b,
    ensures
        connection_id_text(a) != connection_id_text(b),
{
    if connection_id_text(a) == connection_id_text(b) {
        let p = connection_id_prefix().len() as int;
        let ta = connection_id_text(a);
        let tb = connection_id_text(b);
        assert(decimal(a) =~= ta.subrange(p, ta.len() as int));
        assert(decimal(b) =~= tb.subrange(p, tb.len() as int));
        lemma_decimal_injective(a, b);
    }
}

/// Session `info` has been idle for longer than `max_idle_minutes` at time `now`.
pub open spec fn is_idle(info: SshConnectionInfo, now: u64, max_idle_minutes: u64) -> bool {
    now - info.last_activity > max_idle_minutes * 60
}

/// The sessions after activity on session `k` at time `now`: its last
/// activity moves forward to `now`, never backward.
pub open spec fn touched(m: Map<Seq<char>, SshConnectionInfo>, k: Seq<char>, now: u64) -> Map<
    Seq<char>,
    SshConnectionInfo,
> {
    let info = m[k];
    m.insert(
        k,
        SshConnectionInfo {
            last_activity: if now > info.last_activity {
                now
            } else {
                info.last_activity
            },
            ..info
        },
    )
}

/// Profile `p` has key `(host, port, username)`.
pub open spec fn same_key(p: SavedSshConnection, host: Seq<char>, port: u16, username: Seq<char>) -> bool {
    p.host@ == host && p.port == port && p.username@ == username
}

pub open spec fn has_profile(
    s: Seq<SavedSshConnection>,
    host: Seq<char>,
    port: u16,
    username: Seq<char>,
) -> bool {
    exists|i: int| 0 <= i < s.len() && same_key(#[trigger] s[i], host, port, username)
}

/// The position of the profile with the given key (meaningful when there is one).
pub open spec fn profile_index(
    s: Seq<SavedSshConnection>,
    host: Seq<char>,
    port: u16,
    username: Seq<char>,
) -> int {
    choose|i: int| 0 <= i < s.len() && same_key(#[trigger] s[i], host, port, username)
}

/// No two profiles share a key.
pub open spec fn profiles_unique(s: Seq<SavedSshConnection>) -> bool {
    forall|i: int, j: int|
        #![trigger s[i], s[j]]
        0 <= i < s.len() && 0 <= j < s.len() && i != j ==> !same_key(s[i], s[j].host@, s[j].port, s[j].username@)
}

/// Saving `p`: it replaces the profile with the same key, or is appended.
pub open spec fn upsert(s: Seq<SavedSshConnection>, p: SavedSshConnection) -> Seq<
    SavedSshConnection,
> {
    if has_profile(s, p.host@, p.port, p.username@) {
        s.update(profile_index(s, p.host@, p.port, p.username@), p)
    } else {
        s.push(p)
    }
}

/// Offering `p` after a connection: it is appended unless its key is saved already.
pub open spec fn remember(s: Seq<SavedSshConnection>, p: SavedSshConnection) -> Seq<
    SavedSshConnection,
> {
    if has_profile(s, p.host@, p.port, p.username@) {
        s
    } else {
        s.push(p)
    }
}

/// Saving each profile of `s` in turn, starting from an empty list.
pub open spec fn upsert_all(s: Seq<SavedSshConnection>) -> Seq<SavedSshConnection>
    decreases s.len(),
{
    if s.len() == 0 {
        Seq::empty()
    } else {
        upsert(upsert_all(s.drop_last()), s.last())
    }
}

/// The profiles of `s` without the one keyed `(host, port, username)`.
pub open spec fn without_profile(
    s: Seq<SavedSshConnection>,
    host: Seq<char>,
    port: u16,
    username: Seq<char>,
) -> Seq<SavedSshConnection>
    decreases s.len(),
{
    if s.len() == 0 {
        Seq::empty()
    } else {
        let rest = without_profile(s.drop_last(), host, port, username);
        if same_key(s.last(), host, port, username) {
            rest
        } else {
            rest.push(s.last())
        }
    }
}

/// The profiles of `s` with the display name of the one keyed
/// `(host, port, username)` set to `name`.
pub open spec fn renamed(
    s: Seq<SavedSshConnection>,
    host: Seq<char>,
    port: u16,
    username: Seq<char>,
    name: Option<String>,
) -> Seq<SavedSshConnection> {
    if has_profile(s, host, port, username) {
        let i = profile_index(s, host, port, username);
        s.update(
            i,
            SavedSshConnection {
                host: s[i].host,
                port: s[i].port,
                username: s[i].username,
                name: name,
            },
        )
    } else {
        s
    }
}

/// The profile saved after a successful connection with `request`.
pub open spec fn profile_of(request: SshConnectionRequest) -> SavedSshConnection {
    SavedSshConnection {
        host: request.host,
        port: request.port,
        username: request.username,
        name: None,
    }
}

pub proof fn lemma_profile_index(s: Seq<SavedSshConnection>, i: int)
    requires
        profiles_unique(s),
        0 <= i < s.len(),
    ensures
        has_profile(s, s[i].host@, s[i].port, s[i].username@),
        profile_index(s, s[i].host@, s[i].port, s[i].username@) == i,
{
    assert(same_key(s[i], s[i].host@, s[i].port, s[i].username@));
    let j = profile_index(s, s[i].host@, s[i].port, s[i].username@);
    if j != i {
        assert(same_key(s[j], s[i].host@, s[i].port, s[i].username@));
        assert(same_key(s[i], s[i].host@, s[i].port, s[i].username@));
    }
}

proof fn lemma_profiles_unique_update(s: Seq<SavedSshConnection>, i: int, p: SavedSshConnection)
    requires
        profiles_unique(s),
        0 <= i < s.len(),
        same_key(p, s[i].host@, s[i].port, s[i].username@),
    ensures
        profiles_unique(s.update(i, p)),
{
    let u = s.update(i, p);
    assert forall|a: int, b: int|
        #![trigger u[a], u[b]]
        0 <= a < u.len() && 0 <= b < u.len() && a != b implies !same_key(u[a], u[b].host@, u[b].port, u[b].username@) by {
        if same_key(u[a], u[b].host@, u[b].port, u[b].username@) {
            assert(same_key(s[a], s[b].host@, s[b].port, s[b].username@));
        }
    }
}

proof fn lemma_profiles_unique_push(s: Seq<SavedSshConnection>, p: SavedSshConnection)
    requires
        profiles_unique(s),
        !has_profile(s, p.host@, p.port, p.username@),
    ensures
        profiles_unique(s.push(p)),
{
    let u = s.push(p);
    assert forall|a: int, b: int|
        #![trigger u[a], u[b]]
        0 <= a < u.len() && 0 <= b < u.len() && a != b implies !same_key(u[a], u[b].host@, u[b].port, u[b].username@) by {
        if a < s.len() && b < s.len() {
            assert(u[a] == s[a] && u[b] == s[b]);
        } else if a < s.len() {
            assert(u[a] == s[a]);
            if same_key(s[a], p.host@, p.port, p.username@) {
                assert(has_profile(s, p.host@, p.port, p.username@));
            }
        } else {
            assert(u[b] == s[b]);
            if same_key(p, s[b].host@, s[b].port, s[b].username@) {
                assert(same_key(s[b], p.host@, p.port, p.username@));
                assert(has_profile(s, p.host@, p.port, p.username@));
            }
        }
    }
}

proof fn lemma_upsert_unique(s: Seq<SavedSshConnection>, p: SavedSshConnection)
    requires
        profiles_unique(s),
    ensures
        profiles_unique(upsert(s, p)),
        profiles_unique(remember(s, p)),
{
    if has_profile(s, p.host@, p.port, p.username@) {
        let i = profile_index(s, p.host@, p.port, p.username@);
        lemma_profiles_unique_update(s, i, p);
    } else {
        lemma_profiles_unique_push(s, p);
    }
}

proof fn lemma_upsert_all_unique(s: Seq<SavedSshConnection>)
    ensures
        profiles_unique(upsert_all(s)),
    decreases s.len(),
{
    if s.len() > 0 {
        lemma_upsert_all_unique(s.drop_last());
        lemma_upsert_unique(upsert_all(s.drop_last()), s.last());
    }
}

/// Renaming keeps the saved profiles free of duplicate keys.
pub proof fn lemma_renamed_unique(
    s: Seq<SavedSshConnection>,
    host: Seq<char>,
    port: u16,
    username: Seq<char>,
    name: Option<String>,
)
    requires
        profiles_unique(s),
    ensures
        profiles_unique(renamed(s, host, port, username, name)),
{
    if has_profile(s, host, port, username) {
        let i = profile_index(s, host, port, username);
        let p = SavedSshConnection {
            host: s[i].host,
            port: s[i].port,
            username: s[i].username,
            name: name,
        };
        lemma_profiles_unique_update(s, i, p);
    }
}

proof fn lemma_without_profile_unique(
    s: Seq<SavedSshConnection>,
    host: Seq<char>,
    port: u16,
    username: Seq<char>,
)
    requires
        profiles_unique(s),
    ensures
        profiles_unique(without_profile(s, host, port, username)),
        !has_profile(without_profile(s, host, port, username), host, port, username),
        forall|h: Seq<char>, p: u16, u: Seq<char>|
            #[trigger] has_profile(without_profile(s, host, port, username), h, p, u)
                ==> has_profile(s, h, p, u),
    decreases s.len(),
{
    if s.len() > 0 {
        let d = s.drop_last();
        assert forall|a: int, b: int|
            #![trigger d[a], d[b]]
        0 <= a < d.len() && 0 <= b < d.len() && a != b implies !same_key(d[a], d[b].host@, d[b].port, d[b].username@) by {
            assert(d[a] == s[a] && d[b] == s[b]);
        }
        lemma_without_profile_unique(d, host, port, username);
        let rest = without_profile(d, host, port, username);
        assert forall|h: Seq<char>, p: u16, u: Seq<char>| #[trigger] has_profile(d, h, p, u) implies has_profile(
            s,
            h,
            p,
            u,
        ) by {
            let i = choose|i: int| 0 <= i < d.len() && same_key(#[trigger] d[i], h, p, u);
            assert(s[i] == d[i]);
        }
        if !same_key(s.last(), host, port, username) {
            let l = s.last();
            if has_profile(rest, l.host@, l.port, l.username@) {
                assert(has_profile(d, l.host@, l.port, l.username@));
                let i = choose|i: int|
                    0 <= i < d.len() && same_key(#[trigger] d[i], l.host@, l.port, l.username@);
                assert(s[i] == d[i]);
                assert(same_key(s[s.len() - 1], s[s.len() - 1].host@, s[s.len() - 1].port, s[s.len() - 1].username@));
            }
            lemma_profiles_unique_push(rest, l);
            let w = rest.push(l);
            assert forall|h: Seq<char>, p: u16, u: Seq<char>| #[trigger] has_profile(w, h, p, u) implies has_profile(
                s,
                h,
                p,
                u,
            ) by {
                let i = choose|i: int| 0 <= i < w.len() && same_key(#[trigger] w[i], h, p, u);
                if i < rest.len() {
                    assert(w[i] == rest[i]);
                    assert(has_profile(rest, h, p, u));
                } else {
                    assert(same_key(s[s.len() - 1], h, p, u));
                }
            }
            if has_profile(w, host, port, username) {
                let i = choose|i: int| 0 <= i < w.len() && same_key(#[trigger] w[i], host, port, username);
                if i < rest.len() {
                    assert(w[i] == rest[i]);
                }
            }
        }
    }
}

impl SshConnectionInfo {
    /// A copy of this description.
    pub fn snapshot(&self) -> (r: SshConnectionInfo)
        ensures
            r == *self,
    {
        SshConnectionInfo {
            host: self.host.clone(),
            port: self.port,
            username: self.username.clone(),
            connection_id: self.connection_id.clone(),
            connected_at: self.connected_at,
            last_activity: self.last_activity,
        }
    }
}

impl SavedSshConnection {
    /// A copy of this profile.
    pub fn snapshot(&self) -> (r: SavedSshConnection)
        ensures
            r == *self,
    {
        SavedSshConnection {
            host: self.host.clone(),
            port: self.port,
            username: self.username.clone(),
            name: match &self.name {
                Some(n) => Some(n.clone()),
                None => None,
            },
        }
    }
}

/// The position of the profile keyed `(host, port, username)`, if any.
fn find_profile(s: &Vec<SavedSshConnection>, host: &str, port: u16, username: &str) -> (r: Option<
    usize,
>)
    requires
        profiles_unique(s@),
    ensures
        match r {
            Some(i) => i < s@.len() && has_profile(s@, host@, port, username@) && i == profile_index(
                s@,
                host@,
                port,
                username@,
            ),
            None => !has_profile(s@, host@, port, username@),
        },
{
    let h = String::from_str(host);
    let u = String::from_str(username);
    let mut i: usize = 0;
    while i < s.len()
        invariant
            i <= s@.len(),
            profiles_unique(s@),
            h@ == host@,
            u@ == username@,
            forall|j: int| 0 <= j < i ==> !same_key(#[trigger] s@[j], host@, port, username@),
        decreases s@.len() - i,
    {
        if s[i].host == h && s[i].port == port && s[i].username == u {
            proof {
                lemma_profile_index(s@, i as int);
            }
            return Some(i);
        }
        i = i + 1;
    }
    None
}

impl<H> SshClient<H> {
    /// Well-formed: identifiers are distinct, each row is keyed by its own
    /// identifier, which is the text of a serial number below the counter,
    /// and saved profiles have distinct keys.
    pub closed spec fn wf(&self) -> bool {
        &&& keys_unique(self.connections@)
        &&& forall|i: int|
            0 <= i < self.connections@.len() ==> {
                let row = #[trigger] self.connections@[i];
                &&& row.key@ == row.value.info.connection_id@
                &&& row.value.serial < self.connection_counter
                &&& row.key@ == connection_id_text(row.value.serial as nat)
            }
        &&& profiles_unique(self.saved_connections@)
    }

    /// The live sessions, by identifier.
    pub closed spec fn sessions(&self) -> Map<Seq<char>, SshConnectionInfo> {
        keyed_map(self.connections@).map_values(|c: SshConnection<H>| c.info)
    }

    /// The transport handle of each live session, by identifier.
    pub closed spec fn handles(&self) -> Map<Seq<char>, H> {
        keyed_map(self.connections@).map_values(|c: SshConnection<H>| c.session)
    }

    /// The serial number of the next session.
    pub closed spec fn counter(&self) -> u64 {
        self.connection_counter
    }

    /// The saved profiles, in order.
    pub closed spec fn saved(&self) -> Seq<SavedSshConnection> {
        self.saved_connections@
    }

    /// The identifier that the next session will get.
    pub open spec fn next_connection_id(&self) -> Seq<char> {
        connection_id_text(self.counter() as nat)
    }

    /// In a well-formed registry every session is keyed by its own
    /// identifier, no session has the next identifier yet, and the profiles
    /// have distinct keys.
    pub proof fn lemma_wf_facts(&self)
        requires
            self.wf(),
        ensures
            forall|k: Seq<char>| #[trigger]
                self.sessions().contains_key(k) ==> self.sessions()[k].connection_id@ == k,
            !self.sessions().contains_key(self.next_connection_id()),
            profiles_unique(self.saved()),
            self.handles().dom() == self.sessions().dom(),
    {
        assert(self.handles().dom() =~= self.sessions().dom());
        let s = self.connections@;
        assert forall|k: Seq<char>| #[trigger]
            self.sessions().contains_key(k) implies self.sessions()[k].connection_id@ == k by {
            lemma_keyed_map_dom(s, k);
            let i = choose|i: int| 0 <= i < s.len() && #[trigger] s[i].key@ == k;
            lemma_keyed_map_index(s, i);
        }
        self.lemma_next_id_fresh();
    }

    proof fn lemma_next_id_fresh(&self)
        requires
            self.wf(),
        ensures
            !has_key(self.connections@, self.next_connection_id()),
            !self.sessions().contains_key(self.next_connection_id()),
    {
        let s = self.connections@;
        let k = self.next_connection_id();
        assert forall|i: int| 0 <= i < s.len() implies #[trigger] s[i].key@ != k by {
            let row = s[i];
            assert(row.value.serial < self.connection_counter);
            lemma_connection_ids_distinct(row.value.serial as nat, self.connection_counter as nat);
        }
        lemma_keyed_map_dom(s, k);
    }

    /// A registry with no sessions, whose saved profiles are `saved`, each
    /// saved in turn (a later profile replaces an earlier one with its key).
    pub fn new(saved: Vec<SavedSshConnection>) -> (r: SshClient<H>)
        ensures
            r.wf(),
            r.sessions() == Map::<Seq<char>, SshConnectionInfo>::empty(),
            r.handles() == Map::<Seq<char>, H>::empty(),
            r.counter() == 0,
            r.saved() == upsert_all(saved@),
    {
        let mut client = SshClient {
            connections: Vec::new(),
            connection_counter: 0,
            saved_connections: Vec::new(),
        };
        let mut i: usize = 0;
        while i < saved.len()
            invariant
                i <= saved@.len(),
                client.wf(),
                client.connections@.len() == 0,
                client.connection_counter == 0,
                client.saved() == upsert_all(saved@.subrange(0, i as int)),
            decreases saved@.len() - i,
        {
            proof {
                assert(saved@.subrange(0, i + 1).drop_last() =~= saved@.subrange(0, i as int));
            }
            client.add_saved_connection(saved[i].snapshot());
            i = i + 1;
        }
        proof {
            assert(saved@.subrange(0, saved@.len() as int) =~= saved@);
            assert(client.sessions() =~= Map::<Seq<char>, SshConnectionInfo>::empty());
            assert(client.handles() =~= Map::<Seq<char>, H>::empty());
        }
        client
    }

    /// Registers the authenticated session `session` opened for `request`
    /// at time `current_time`, under a fresh identifier, and adds the
    /// request's password-free profile to the saved list unless a profile
    /// with its key is saved already.
    pub fn connect(&mut self, request: &SshConnectionRequest, session: H, current_time: u64) -> (r:
        Result<String, SshError>)
        requires
            old(self).wf(),
        ensures
            final(self).wf(),
            match r {
                Ok(id) => {
                    &&& old(self).counter() < u64::MAX
                    &&& id@ == old(self).next_connection_id()
                    &&& !old(self).sessions().contains_key(id@)
                    &&& final(self).counter() == old(self).counter() + 1
                    &&& final(self).sessions() == old(self).sessions().insert(
                        id@,
                        (SshConnectionInfo {
                            host: request.host,
                            port: request.port,
                            username: request.username,
                            connection_id: id,
                            connected_at: current_time,
                            last_activity: current_time,
                        }),
                    )
                    &&& final(self).handles() == old(self).handles().insert(id@, session)
                    &&& final(self).saved() == remember(old(self).saved(), profile_of(*request))
                },
                Err(e) => {
                    &&& e is IdsExhausted
                    &&& old(self).counter() == u64::MAX
                    &&& final(self).sessions() == old(self).sessions()
                    &&& final(self).handles() == old(self).handles()
                    &&& final(self).counter() == old(self).counter()
                    &&& final(self).saved() == old(self).saved()
                },
            },
    {
        if self.connection_counter == u64::MAX {
            return Err(SshError::IdsExhausted);
        }
        let serial = self.connection_counter;
        let mut id = String::from_str("ssh_conn_");
        id.append(decimal_string(serial).as_str());
        proof {
            reveal_strlit("ssh_conn_");
            assert(id@ =~= connection_id_text(serial as nat));
            self.lemma_next_id_fresh();
        }
        let info = SshConnectionInfo {
            host: request.host.clone(),
            port: request.port,
            username: request.username.clone(),
            connection_id: id.clone(),
            connected_at: current_time,
            last_activity: current_time,
        };
        let profile = SavedSshConnection {
            host: request.host.clone(),
            port: request.port,
            username: request.username.clone(),
            name: None,
        };
        let row = Keyed { key: id.clone(), value: SshConnection { info, serial, session } };
        let ghost old_rows = self.connections@;
        proof {
            lemma_keyed_map_push(old_rows, row);
        }
        self.connections.push(row);
        self.connection_counter = serial + 1;
        proof {
            assert(self.connections@ == old_rows.push(row));
            assert forall|i: int| 0 <= i < self.connections@.len() implies {
                let r = #[trigger] self.connections@[i];
                &&& r.key@ == r.value.info.connection_id@
                &&& r.value.serial < self.connection_counter
                &&& r.key@ == connection_id_text(r.value.serial as nat)
            } by {
                if i < old_rows.len() {
                    assert(self.connections@[i] == old_rows[i]);
                }
            }
            assert(self.sessions() =~= old(self).sessions().insert(id@, row.value.info));
            assert(self.handles() =~= old(self).handles().insert(id@, row.value.session));
        }
        match find_profile(&self.saved_connections, request.host.as_str(), request.port, request.username.as_str()) {
            Some(_) => {},
            None => {
                proof {
                    lemma_upsert_unique(self.saved_connections@, profile);
                }
                self.saved_connections.push(profile);
            },
        }
        Ok(id)
    }

    /// Takes row `i` out of the registry.
    fn take_row(&mut self, i: usize) -> (r: Released<H>)
        requires
            old(self).wf(),
            i < old(self).connections@.len(),
        ensures
            final(self).wf(),
            final(self).connections@.len() == old(self).connections@.len() - 1,
            final(self).counter() == old(self).counter(),
            final(self).saved() == old(self).saved(),
            old(self).sessions().contains_key(old(self).connections@[i as int].key@),
            r.info == old(self).sessions()[old(self).connections@[i as int].key@],
            r.info.connection_id@ == old(self).connections@[i as int].key@,
            final(self).sessions() == old(self).sessions().remove(
                old(self).connections@[i as int].key@,
            ),
            r.session == old(self).handles()[old(self).connections@[i as int].key@],
            final(self).handles() == old(self).handles().remove(
                old(self).connections@[i as int].key@,
            ),
    {
        let ghost old_rows = self.connections@;
        let ghost k = old_rows[i as int].key@;
        proof {
            lemma_keyed_map_index(old_rows, i as int);
            lemma_keyed_map_remove(old_rows, i as int);
        }
        let row = self.connections.remove(i);
        proof {
            assert(self.connections@ == old_rows.remove(i as int));
            assert forall|j: int| 0 <= j < self.connections@.len() implies {
                let r = #[trigger] self.connections@[j];
                &&& r.key@ == r.value.info.connection_id@
                &&& r.value.serial < self.connection_counter
                &&& r.key@ == connection_id_text(r.value.serial as nat)
            } by {
                if j < i {
                    assert(self.connections@[j] == old_rows[j]);
                } else {
                    assert(self.connections@[j] == old_rows[j + 1]);
                }
            }
            assert(self.sessions() =~= old(self).sessions().remove(k));
            assert(self.handles() =~= old(self).handles().remove(k));
        }
        Released { info: row.value.info, session: row.value.session }
    }

    /// Takes the session `connection_id` out of the registry and hands back
    /// its description and transport handle for release.
    pub fn disconnect(&mut self, connection_id: &str) -> (r: Result<Released<H>, SshError>)
        requires
            old(self).wf(),
        ensures
            final(self).wf(),
            final(self).counter() == old(self).counter(),
            final(self).saved() == old(self).saved(),
            match r {
                Ok(rel) => {
                    &&& old(self).sessions().contains_key(connection_id@)
                    &&& rel.info == old(self).sessions()[connection_id@]
                    &&& rel.session == old(self).handles()[connection_id@]
                    &&& final(self).sessions() == old(self).sessions().remove(connection_id@)
                    &&& final(self).handles() == old(self).handles().remove(connection_id@)
                },
                Err(e) => {
                    &&& e is NotFound
                    &&& !old(self).sessions().contains_key(connection_id@)
                    &&& final(self).sessions() == old(self).sessions()
                    &&& final(self).handles() == old(self).handles()
                },
            },
    {
        proof {
            lemma_keyed_map_dom(self.connections@, connection_id@);
        }
        match find_key(&self.connections, connection_id) {
            Some(i) => Ok(self.take_row(i)),
            None => Err(SshError::NotFound),
        }
    }

    /// Takes every session out of the registry, handing each back for release.
    pub fn disconnect_all(&mut self) -> (r: Vec<Released<H>>)
        requires
            old(self).wf(),
        ensures
            final(self).wf(),
            final(self).sessions() == Map::<Seq<char>, SshConnectionInfo>::empty(),
            final(self).handles() == Map::<Seq<char>, H>::empty(),
            final(self).counter() == old(self).counter(),
            final(self).saved() == old(self).saved(),
            forall|i: int|
                0 <= i < r@.len() ==> old(self).sessions().contains_key(
                    #[trigger] r@[i].info.connection_id@,
                ) && old(self).sessions()[r@[i].info.connection_id@] == r@[i].info
                    && old(self).handles()[r@[i].info.connection_id@] == r@[i].session,
            forall|k: Seq<char>| #[trigger]
                old(self).sessions().contains_key(k) ==> exists|i: int|
                    0 <= i < r@.len() && #[trigger] r@[i].info.connection_id@ == k,
            forall|i: int, j: int|
                0 <= i < r@.len() && 0 <= j < r@.len() && i != j ==> #[trigger] r@[i].info.connection_id@
                    != #[trigger] r@[j].info.connection_id@,
    {
        let mut out: Vec<Released<H>> = Vec::new();
        let ghost start = *self;
        while self.connections.len() > 0
            invariant
                self.wf(),
                start.wf(),
                self.connection_counter == start.connection_counter,
                self.saved_connections@ == start.saved_connections@,
                forall|k: Seq<char>| #[trigger]
                    self.sessions().contains_key(k) ==> start.sessions().contains_key(k)
                        && self.sessions()[k] == start.sessions()[k]
                        && self.handles()[k] == start.handles()[k],
                forall|i: int|
                    0 <= i < out@.len() ==> start.sessions().contains_key(
                        #[trigger] out@[i].info.connection_id@,
                    ) && start.sessions()[out@[i].info.connection_id@] == out@[i].info
                        && start.handles()[out@[i].info.connection_id@] == out@[i].session
                        && !self.sessions().contains_key(out@[i].info.connection_id@),
                forall|k: Seq<char>| #[trigger]
                    start.sessions().contains_key(k) ==> self.sessions().contains_key(k) || exists|
                        i: int,
                    | 0 <= i < out@.len() && #[trigger] out@[i].info.connection_id@ == k,
                forall|i: int, j: int|
                    0 <= i < out@.len() && 0 <= j < out@.len() && i != j
                        ==> #[trigger] out@[i].info.connection_id@
                        != #[trigger] out@[j].info.connection_id@,
            decreases self.connections@.len(),
        {
            let last = self.connections.len() - 1;
            let ghost before = *self;
            let ghost k = self.connections@[last as int].key@;
            proof {
                lemma_keyed_map_index(self.connections@, last as int);
            }
            let rel = self.take_row(last);
            proof {
                before.lemma_wf_facts();
                assert(rel.info.connection_id@ == k);
            }
            let ghost old_out = out@;
            out.push(rel);
            proof {
                assert forall|k2: Seq<char>| #[trigger]
                    start.sessions().contains_key(k2) implies self.sessions().contains_key(k2)
                    || exists|i: int| 0 <= i < out@.len() && #[trigger] out@[i].info.connection_id@ == k2 by {
                    if !self.sessions().contains_key(k2) {
                        if k2 == k {
                            assert(out@[out@.len() - 1].info.connection_id@ == k2);
                        } else {
                            assert(!before.sessions().contains_key(k2));
                            let i = choose|i: int|
                                0 <= i < old_out.len() && #[trigger] old_out[i].info.connection_id@ == k2;
                            assert(out@[i] == old_out[i]);
                        }
                    }
                }
            }
        }
        proof {
            assert(self.connections@.len() == 0);
            assert(self.sessions() =~= Map::<Seq<char>, SshConnectionInfo>::empty());
            assert(self.handles() =~= Map::<Seq<char>, H>::empty());
        }
        out
    }

    /// Descriptions of all live sessions.
    pub fn list_connections(&self) -> (r: Vec<SshConnectionInfo>)
        requires
            self.wf(),
        ensures
            forall|i: int|
                0 <= i < r@.len() ==> self.sessions().contains_key(#[trigger] r@[i].connection_id@)
                    && self.sessions()[r@[i].connection_id@] == r@[i],
            forall|k: Seq<char>| #[trigger]
                self.sessions().contains_key(k) ==> exists|i: int|
                    0 <= i < r@.len() && #[trigger] r@[i].connection_id@ == k,
            forall|i: int, j: int|
                0 <= i < r@.len() && 0 <= j < r@.len() && i != j ==> #[trigger] r@[i].connection_id@
                    != #[trigger] r@[j].connection_id@,
    {
        let s = &self.connections;
        let mut out: Vec<SshConnectionInfo> = Vec::new();
        let mut i: usize = 0;
        while i < s.len()
            invariant
                self.wf(),
                s@ == self.connections@,
                i <= s@.len(),
                out@.len() == i,
                forall|j: int| 0 <= j < i ==> #[trigger] out@[j] == s@[j].value.info,
            decreases s@.len() - i,
        {
            out.push(s[i].value.info.snapshot());
            i = i + 1;
        }
        proof {
            assert forall|j: int| 0 <= j < out@.len() implies self.sessions().contains_key(
                #[trigger] out@[j].connection_id@,
            ) && self.sessions()[out@[j].connection_id@] == out@[j] by {
                lemma_keyed_map_index(s@, j);
                assert(s@[j].key@ == out@[j].connection_id@);
            }
            assert forall|k: Seq<char>| #[trigger] self.sessions().contains_key(k) implies exists|
                j: int,
            | 0 <= j < out@.len() && #[trigger] out@[j].connection_id@ == k by {
                lemma_keyed_map_dom(s@, k);
                let j = choose|j: int| 0 <= j < s@.len() && #[trigger] s@[j].key@ == k;
                assert(out@[j].connection_id@ == k);
            }
            assert forall|a: int, b: int|
                0 <= a < out@.len() && 0 <= b < out@.len() && a != b implies #[trigger] out@[a].connection_id@
                != #[trigger] out@[b].connection_id@ by {
                assert(s@[a].key@ == out@[a].connection_id@);
                assert(s@[b].key@ == out@[b].connection_id@);
            }
        }
        out
    }

    /// The description of session `connection_id`.
    pub fn get_connection_info(&self, connection_id: &str) -> (r: Result<SshConnectionInfo, SshError>)
        requires
            self.wf(),
        ensures
            match r {
                Ok(info) => self.sessions().contains_key(connection_id@) && info == self.sessions()[connection_id@],
                Err(e) => e is NotFound && !self.sessions().contains_key(connection_id@),
            },
    {
        proof {
            lemma_keyed_map_dom(self.connections@, connection_id@);
        }
        match find_key(&self.connections, connection_id) {
            Some(i) => {
                proof {
                    lemma_keyed_map_index(self.connections@, i as int);
                }
                Ok(self.connections[i].value.info.snapshot())
            },
            None => Err(SshError::NotFound),
        }
    }

    /// Whether the registry holds session `connection_id`.
    pub fn is_connected(&self, connection_id: &str) -> (r: bool)
        requires
            self.wf(),
        ensures
            r == self.sessions().contains_key(connection_id@),
    {
        proof {
            lemma_keyed_map_dom(self.connections@, connection_id@);
        }
        find_key(&self.connections, connection_id).is_some()
    }

    /// Saves `connection`, replacing the saved profile with the same key if
    /// there is one (so keys stay unique), else appending it.
    pub fn add_saved_connection(&mut self, connection: SavedSshConnection)
        requires
            old(self).wf(),
        ensures
            final(self).wf(),
            final(self).saved() == upsert(old(self).saved(), connection),
            final(self).sessions() == old(self).sessions(),
            final(self).handles() == old(self).handles(),
            final(self).counter() == old(self).counter(),
    {
        proof {
            lemma_upsert_unique(self.saved_connections@, connection);
        }
        match find_profile(
            &self.saved_connections,
            connection.host.as_str(),
            connection.port,
            connection.username.as_str(),
        ) {
            Some(i) => {
                self.saved_connections.set(i, connection);
            },
            None => {
                self.saved_connections.push(connection);
            },
        }
    }

    /// Removes the saved profile keyed `(host, port, username)`, if any.
    pub fn remove_saved_connection(&mut self, host: &str, port: u16, username: &str)
        requires
            old(self).wf(),
        ensures
            final(self).wf(),
            final(self).saved() == without_profile(old(self).saved(), host@, port, username@),
            final(self).sessions() == old(self).sessions(),
            final(self).handles() == old(self).handles(),
            final(self).counter() == old(self).counter(),
    {
        let h = String::from_str(host);
        let u = String::from_str(username);
        let ghost s = self.saved_connections@;
        let mut kept: Vec<SavedSshConnection> = Vec::new();
        let mut i: usize = 0;
        while i < self.saved_connections.len()
            invariant
                self.saved_connections@ == s,
                i <= s.len(),
                h@ == host@,
                u@ == username@,
                kept@ == without_profile(s.subrange(0, i as int), host@, port, username@),
            decreases s.len() - i,
        {
            proof {
                assert(s.subrange(0, i + 1).drop_last() =~= s.subrange(0, i as int));
            }
            let p = &self.saved_connections[i];
            if !(p.host == h && p.port == port && p.username == u) {
                kept.push(p.snapshot());
            }
            i = i + 1;
        }
        proof {
            assert(s.subrange(0, s.len() as int) =~= s);
            lemma_without_profile_unique(s, host@, port, username@);
        }
        self.saved_connections = kept;
    }

    /// A copy of the saved profiles, in order.
    pub fn get_saved_connections(&self) -> (r: Vec<SavedSshConnection>)
        requires
            self.wf(),
        ensures
            r@ == self.saved(),
    {
        let mut out: Vec<SavedSshConnection> = Vec::new();
        let mut i: usize = 0;
        while i < self.saved_connections.len()
            invariant
                i <= self.saved_connections@.len(),
                out@ == self.saved_connections@.subrange(0, i as int),
            decreases self.saved_connections@.len() - i,
        {
            out.push(self.saved_connections[i].snapshot());
            proof {
                assert(out@ =~= self.saved_connections@.subrange(0, i + 1));
            }
            i = i + 1;
        }
        proof {
            assert(out@ =~= self.saved_connections@);
        }
        out
    }

    /// Sets the display name of the saved profile keyed
    /// `(host, port, username)`; nothing changes when there is none.
    pub fn update_saved_connection_name(
        &mut self,
        host: &str,
        port: u16,
        username: &str,
        name: Option<String>,
    )
        requires
            old(self).wf(),
        ensures
            final(self).wf(),
            final(self).saved() == renamed(old(self).saved(), host@, port, username@, name),
            final(self).sessions() == old(self).sessions(),
            final(self).handles() == old(self).handles(),
            final(self).counter() == old(self).counter(),
    {
        proof {
            lemma_renamed_unique(self.saved_connections@, host@, port, username@, name);
        }
        match find_profile(&self.saved_connections, host, port, username) {
            Some(i) => {
                let p = &self.saved_connections[i];
                let updated = SavedSshConnection {
                    host: p.host.clone(),
                    port: p.port,
                    username: p.username.clone(),
                    name,
                };
                self.saved_connections.set(i, updated);
            },
            None => {},
        }
    }

    /// Records activity on session `connection_id` at time `current_time`:
    /// its last activity moves forward to `current_time` (never backward).
    pub fn record_activity(&mut self, connection_id: &str, current_time: u64) -> (r: Result<
        (),
        SshError,
    >)
        requires
            old(self).wf(),
        ensures
            final(self).wf(),
            final(self).counter() == old(self).counter(),
            final(self).saved() == old(self).saved(),
            final(self).handles() == old(self).handles(),
            match r {
                Ok(_) => {
                    &&& old(self).sessions().contains_key(connection_id@)
                    &&& final(self).sessions() == touched(
                        old(self).sessions(),
                        connection_id@,
                        current_time,
                    )
                },
                Err(e) => {
                    &&& e is NotFound
                    &&& !old(self).sessions().contains_key(connection_id@)
                    &&& final(self).sessions() == old(self).sessions()
                },
            },
    {
        proof {
            lemma_keyed_map_dom(self.connections@, connection_id@);
        }
        match find_key(&self.connections, connection_id) {
            Some(i) => {
                let ghost old_rows = self.connections@;
                proof {
                    lemma_keyed_map_index(old_rows, i as int);
                }
                let mut row = self.connections.remove(i);
                if current_time > row.value.info.last_activity {
                    row.value.info.last_activity = current_time;
                }
                let ghost row_new = row;
                proof {
                    crate::keyed::lemma_keyed_map_update(old_rows, i as int, row_new);
                    assert(old_rows.update(i as int, row_new) =~= old_rows.remove(i as int).insert(
                        i as int,
                        row_new,
                    ));
                }
                self.connections.insert(i, row);
                proof {
                    assert(self.connections@ =~= old_rows.update(i as int, row_new));
                    assert forall|j: int| 0 <= j < self.connections@.len() implies {
                        let r = #[trigger] self.connections@[j];
                        &&& r.key@ == r.value.info.connection_id@
                        &&& r.value.serial < self.connection_counter
                        &&& r.key@ == connection_id_text(r.value.serial as nat)
                    } by {
                        if j != i {
                            assert(self.connections@[j] == old_rows[j]);
                        }
                    }
                    assert(self.sessions() =~= old(self).sessions().insert(
                        connection_id@,
                        row_new.value.info,
                    ));
                    assert(self.handles() =~= old(self).handles());
                }
                Ok(())
            },
            None => Err(SshError::NotFound),
        }
    }

    /// Removes every session idle for longer than `max_idle_minutes` at time
    /// `current_time` (in seconds), handing each back for release.
    pub fn cleanup_inactive_connections(&mut self, max_idle_minutes: u64, current_time: u64) -> (r:
        Vec<Released<H>>)
        requires
            old(self).wf(),
        ensures
            final(self).wf(),
            final(self).counter() == old(self).counter(),
            final(self).saved() == old(self).saved(),
            forall|k: Seq<char>| #[trigger]
                final(self).sessions().contains_key(k) <==> old(self).sessions().contains_key(k)
                    && !is_idle(old(self).sessions()[k], current_time, max_idle_minutes),
            forall|k: Seq<char>| #[trigger]
                final(self).sessions().contains_key(k) ==> final(self).sessions()[k] == old(
                    self,
                ).sessions()[k] && final(self).handles()[k] == old(self).handles()[k],
            final(self).handles().dom() == final(self).sessions().dom(),
            forall|i: int|
                0 <= i < r@.len() ==> old(self).sessions().contains_key(
                    #[trigger] r@[i].info.connection_id@,
                ) && old(self).sessions()[r@[i].info.connection_id@] == r@[i].info
                    && old(self).handles()[r@[i].info.connection_id@] == r@[i].session && is_idle(
                    r@[i].info,
                    current_time,
                    max_idle_minutes,
                ),
            forall|k: Seq<char>| #[trigger]
                old(self).sessions().contains_key(k) && is_idle(
                    old(self).sessions()[k],
                    current_time,
                    max_idle_minutes,
                ) ==> exists|i: int| 0 <= i < r@.len() && #[trigger] r@[i].info.connection_id@ == k,
            forall|i: int, j: int|
                0 <= i < r@.len() && 0 <= j < r@.len() && i != j ==> #[trigger] r@[i].info.connection_id@
                    != #[trigger] r@[j].info.connection_id@,
    {
        let max_idle_seconds: u64 = match max_idle_minutes.checked_mul(60) {
            Some(x) => x,
            None => u64::MAX,
        };
        let ghost start = *self;
        let mut to_remove: Vec<String> = Vec::new();
        let mut i: usize = 0;
        while i < self.connections.len()
            invariant
                *self == start,
                start.wf(),
                i <= self.connections@.len(),
                max_idle_seconds == (if max_idle_minutes * 60 > u64::MAX {
                    u64::MAX as int
                } else {
                    max_idle_minutes * 60
                }),
                forall|j: int|
                    0 <= j < to_remove@.len() ==> start.sessions().contains_key(
                        #[trigger] to_remove@[j]@,
                    ) && is_idle(start.sessions()[to_remove@[j]@], current_time, max_idle_minutes),
                forall|j: int|
                    0 <= j < i && is_idle(
                        #[trigger] self.connections@[j].value.info,
                        current_time,
                        max_idle_minutes,
                    ) ==> exists|m: int|
                        0 <= m < to_remove@.len() && #[trigger] to_remove@[m]@
                            == self.connections@[j].key@,
            decreases self.connections@.len() - i,
        {
            let info = &self.connections[i].value.info;
            proof {
                lemma_keyed_map_index(self.connections@, i as int);
            }
            let ghost old_list = to_remove@;
            if current_time.saturating_sub(info.last_activity) > max_idle_seconds {
                to_remove.push(self.connections[i].key.clone());
                proof {
                    assert(to_remove@[to_remove@.len() - 1]@ == self.connections@[i as int].key@);
                }
            }
            proof {
                assert forall|j: int|
                    0 <= j < i + 1 && is_idle(
                        #[trigger] self.connections@[j].value.info,
                        current_time,
                        max_idle_minutes,
                    ) implies exists|mm: int|
                    0 <= mm < to_remove@.len() && #[trigger] to_remove@[mm]@
                        == self.connections@[j].key@ by {
                    if j < i {
                        let mm = choose|mm: int|
                            0 <= mm < old_list.len() && #[trigger] old_list[mm]@
                                == self.connections@[j].key@;
                        assert(to_remove@[mm] == old_list[mm]);
                    } else {
                        assert(to_remove@[to_remove@.len() - 1]@ == self.connections@[j].key@);
                    }
                }
            }
            i = i + 1;
        }
        let mut removed: Vec<Released<H>> = Vec::new();
        let mut m: usize = 0;
        while m < to_remove.len()
            invariant
                self.wf(),
                start.wf(),
                m <= to_remove@.len(),
                self.connection_counter == start.connection_counter,
                self.saved_connections@ == start.saved_connections@,
                forall|j: int|
                    0 <= j < to_remove@.len() ==> start.sessions().contains_key(
                        #[trigger] to_remove@[j]@,
                    ) && is_idle(start.sessions()[to_remove@[j]@], current_time, max_idle_minutes),
                forall|k: Seq<char>| #[trigger]
                    self.sessions().contains_key(k) ==> start.sessions().contains_key(k)
                        && self.sessions()[k] == start.sessions()[k]
                        && self.handles()[k] == start.handles()[k],
                forall|k: Seq<char>| #[trigger]
                    start.sessions().contains_key(k) && !self.sessions().contains_key(k) ==> exists|
                        j: int,
                    | 0 <= j < m && #[trigger] to_remove@[j]@ == k,
                forall|j: int| 0 <= j < m ==> !self.sessions().contains_key(#[trigger] to_remove@[j]@),
                forall|j: int|
                    0 <= j < removed@.len() ==> start.sessions().contains_key(
                        #[trigger] removed@[j].info.connection_id@,
                    ) && start.sessions()[removed@[j].info.connection_id@] == removed@[j].info
                        && start.handles()[removed@[j].info.connection_id@] == removed@[j].session
                        && is_idle(removed@[j].info, current_time, max_idle_minutes)
                        && !self.sessions().contains_key(removed@[j].info.connection_id@),
                forall|j: int|
                    0 <= j < m ==> exists|r: int|
                        0 <= r < removed@.len() && #[trigger] removed@[r].info.connection_id@
                            == (#[trigger] to_remove@[j])@,
                forall|a: int, b: int|
                    0 <= a < removed@.len() && 0 <= b < removed@.len() && a != b
                        ==> #[trigger] removed@[a].info.connection_id@
                        != #[trigger] removed@[b].info.connection_id@,
            decreases to_remove@.len() - m,
        {
            let ghost before = *self;
            let ghost old_removed = removed@;
            let ghost k = to_remove@[m as int]@;
            let res = self.disconnect(to_remove[m].as_str());
            match res {
                Ok(rel) => {
                    proof {
                        before.lemma_wf_facts();
                    }
                    removed.push(rel);
                    proof {
                        assert(removed@[removed@.len() - 1].info.connection_id@ == k);
                    }
                },
                Err(_) => {
                    proof {
                        let j = choose|j: int| 0 <= j < m && #[trigger] to_remove@[j]@ == k;
                        assert(to_remove@[j]@ == k);
                    }
                },
            }
            proof {
                assert forall|j: int| 0 <= j < m + 1 implies exists|r: int|
                    0 <= r < removed@.len() && #[trigger] removed@[r].info.connection_id@
                        == (#[trigger] to_remove@[j])@ by {
                    if j < m {
                        let r = choose|r: int|
                            0 <= r < old_removed.len() && #[trigger] old_removed[r].info.connection_id@
                                == to_remove@[j]@;
                        assert(removed@[r] == old_removed[r]);
                    } else if before.sessions().contains_key(k) {
                        assert(removed@[removed@.len() - 1].info.connection_id@ == to_remove@[j]@);
                    } else {
                        let jj = choose|jj: int| 0 <= jj < m && #[trigger] to_remove@[jj]@ == k;
                        let r = choose|r: int|
                            0 <= r < old_removed.len() && #[trigger] old_removed[r].info.connection_id@
                                == to_remove@[jj]@;
                        assert(removed@[r] == old_removed[r]);
                    }
                }
                assert forall|k2: Seq<char>| #[trigger]
                    start.sessions().contains_key(k2) && !self.sessions().contains_key(k2) implies exists|
                    j: int,
                | 0 <= j < m + 1 && #[trigger] to_remove@[j]@ == k2 by {
                    if k2 != k {
                        assert(!before.sessions().contains_key(k2));
                        let j = choose|j: int| 0 <= j < m && #[trigger] to_remove@[j]@ == k2;
                    } else {
                        assert(to_remove@[m as int]@ == k2);
                    }
                }
            }
            m = m + 1;
        }
        proof {
            let s = start.connections@;
            assert forall|k: Seq<char>| #[trigger]
                self.sessions().contains_key(k) <==> start.sessions().contains_key(k) && !is_idle(
                    start.sessions()[k],
                    current_time,
                    max_idle_minutes,
                ) by {
                if start.sessions().contains_key(k) && !self.sessions().contains_key(k) {
                    let j = choose|j: int| 0 <= j < to_remove@.len() && #[trigger] to_remove@[j]@ == k;
                }
                if start.sessions().contains_key(k) && is_idle(
                    start.sessions()[k],
                    current_time,
                    max_idle_minutes,
                ) {
                    lemma_keyed_map_dom(s, k);
                    let j = choose|j: int| 0 <= j < s.len() && #[trigger] s[j].key@ == k;
                    lemma_keyed_map_index(s, j);
                    let mm = choose|mm: int| 0 <= mm < to_remove@.len() && #[trigger] to_remove@[mm]@ == s[j].key@;
                    assert(!self.sessions().contains_key(to_remove@[mm]@));
                }
            }
            assert forall|k: Seq<char>| #[trigger]
                start.sessions().contains_key(k) && is_idle(
                    start.sessions()[k],
                    current_time,
                    max_idle_minutes,
                ) implies exists|i: int| 0 <= i < removed@.len() && #[trigger] removed@[i].info.connection_id@ == k by {
                lemma_keyed_map_dom(s, k);
                let j = choose|j: int| 0 <= j < s.len() && #[trigger] s[j].key@ == k;
                lemma_keyed_map_index(s, j);
                let mm = choose|mm: int| 0 <= mm < to_remove@.len() && #[trigger] to_remove@[mm]@ == s[j].key@;
                let r = choose|r: int|
                    0 <= r < removed@.len() && #[trigger] removed@[r].info.connection_id@
                        == to_remove@[mm]@;
                assert(removed@[r].info.connection_id@ == k);
            }
        }
        removed
    }

    /// The transport handle of session `connection_id`, if it is live.
    pub fn session(&self, connection_id: &str) -> (r: Option<&H>)
        requires
            self.wf(),
        ensures
            r is Some == self.sessions().contains_key(connection_id@),
            r matches Some(h) ==> *h == self.handles()[connection_id@],
    {
        proof {
            lemma_keyed_map_dom(self.connections@, connection_id@);
        }
        match find_key(&self.connections, connection_id) {
            Some(i) => {
                proof {
                    lemma_keyed_map_index(self.connections@, i as int);
                }
                Some(&self.connections[i].value.session)
            },
            None => None,
        }
    }
}

/// The result of a remote command that ended with `exit_status` after
/// printing `output`: the output on a zero status, a failure carrying both
/// otherwise.
pub fn command_outcome(exit_status: i32, output: String) -> (r: Result<String, SshError>)
    ensures
        exit_status == 0 ==> r == Ok::<String, SshError>(output),
        exit_status != 0 ==> r == Err::<String, SshError>(
            SshError::CommandFailed { exit_status, output },
        ),
{
    if exit_status == 0 {
        Ok(output)
    } else {
        Err(SshError::CommandFailed { exit_status, output })
    }
}

/// Sessions opened one after another get pairwise distinct identifiers: an
/// opening from a registry whose counter has moved past that of an earlier
/// opening gets a different identifier (every operation keeps the counter or
/// moves it forward, and a successful `connect` moves it by one).
pub proof fn lemma_sequential_connect_ids_distinct<H>(earlier: SshClient<H>, later: SshClient<H>)
    requires
        earlier.counter() < later.counter(),
    ensures
        earlier.next_connection_id() != later.next_connection_id(),
{
    lemma_connection_ids_distinct(earlier.counter() as nat, later.counter() as nat);
}

/// Once a session has been disconnected its identifier is gone, so a second
/// `disconnect` of it reports `NotFound`.
pub proof fn lemma_disconnect_twice(sessions: Map<Seq<char>, SshConnectionInfo>, k: Seq<char>)
    ensures
        !sessions.remove(k).contains_key(k),
{
}

/// Activity on two different sessions loses no update: in either order
/// both sessions end with their own advanced last activity and no session
/// appears or disappears.
pub proof fn lemma_activity_on_distinct_sessions(
    sessions: Map<Seq<char>, SshConnectionInfo>,
    k1: Seq<char>,
    t1: u64,
    k2: Seq<char>,
    t2: u64,
)
    requires
        k1 != k2,
        sessions.contains_key(k1),
        sessions.contains_key(k2),
    ensures
        touched(touched(sessions, k1, t1), k2, t2) == touched(touched(sessions, k2, t2), k1, t1),
        touched(touched(sessions, k1, t1), k2, t2).dom() == sessions.dom(),
        touched(touched(sessions, k1, t1), k2, t2)[k1] == touched(sessions, k1, t1)[k1],
        touched(touched(sessions, k1, t1), k2, t2)[k2] == touched(sessions, k2, t2)[k2],
{
    assert(touched(touched(sessions, k1, t1), k2, t2) =~= touched(
        touched(sessions, k2, t2),
        k1,
        t1,
    ));
    assert(touched(touched(sessions, k1, t1), k2, t2).dom() =~= sessions.dom());
}

/// Renaming a saved profile never leaves two profiles with the same key.
pub proof fn lemma_update_name_keeps_keys_unique<H>(
    client: SshClient<H>,
    host: Seq<char>,
    port: u16,
    username: Seq<char>,
    name: Option<String>,
)
    requires
        client.wf(),
    ensures
        profiles_unique(renamed(client.saved(), host, port, username, name)),
{
    client.lemma_wf_facts();
    lemma_renamed_unique(client.saved(), host, port, username, name);
}

/// The human-readable text of an error.
pub open spec fn error_text(e: SshError) -> Seq<char> {
    match e {
        SshError::NotFound => "Connection not found"@,
        SshError::IdsExhausted => "No connection identifiers left"@,
        SshError::CommandFailed { exit_status, output } => "Command failed with exit status "@
            + signed_decimal(exit_status as int) + ": "@ + output@,
    }
}

impl SshError {
    /// The human-readable text of this error.
    pub fn message(&self) -> (r: String)
        ensures
            r@ == error_text(*self),
    {
        match self {
            SshError::NotFound => String::from_str("Connection not found"),
            SshError::IdsExhausted => String::from_str("No connection identifiers left"),
            SshError::CommandFailed { exit_status, output } => {
                let mut m = String::from_str("Command failed with exit status ");
                m.append(signed_decimal_string(*exit_status).as_str());
                m.append(": ");
                m.append(output.as_str());
                m
            },
        }
    }
}

} // verus!
