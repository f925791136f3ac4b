//! Persisted records and the store the broker core runs against: users,
//! API keys, connections, sessions, and per-session scrollback.
//!
//! The store is the in-memory model of the relational schema the broker
//! persists to: rows keyed by 128-bit identifiers, with referential
//! integrity and uniqueness stated in [`Store::wf`]. Timestamps are logical:
//! the store's clock advances on every write that records a time.

use crate::crypto;
use crate::scrollback::{ChunkLog, ScrollbackChunk};
use crate::HiveError;
use vstd::prelude::*;
use vstd::string::StringExecFns;

verus! {

/// A registered user.
#[derive(Debug, Clone)]
pub struct User {
    pub id: u128,
    pub username: String,
    pub created_at: u64,
}

/// An issued API key; only the hash of the key string is stored.
#[derive(Debug, Clone)]
pub struct ApiKey {
    pub id: u128,
    pub user_id: u128,
    pub name: String,
    pub key_hash: String,
    pub last_used_at: Option<u64>,
    pub created_at: u64,
}

/// A saved SSH target owned by one user.
#[derive(Debug, Clone)]
pub struct Connection {
    pub id: u128,
    pub user_id: u128,
    pub name: String,
    pub host: String,
    pub port: i32,
    pub username: String,
    pub ssh_key_id: Option<u128>,
    pub startup_command: Option<String>,
    pub created_at: u64,
}

/// Lifecycle state of a session row: created `Active`, `Closed` is terminal.
#[derive(Debug, Clone, Copy, PartialEq, Eq, Structural)]
pub enum SessionStatus {
    Active,
    Closed,
}

/// One logical shell session.
#[derive(Debug, Clone)]
pub struct Session {
    pub id: u128,
    pub user_id: u128,
    pub connection_id: u128,
    pub status: SessionStatus,
    pub created_at: u64,
    pub last_activity: u64,
}

/// Abstract value of a [`User`] row.
pub struct UserV {
    pub id: u128,
    pub username: Seq<char>,
    pub created_at: u64,
}

impl View for User {
    type V = UserV;

    open spec fn view(&self) -> UserV {
        UserV { id: self.id, username: self.username@, created_at: self.created_at }
    }
}

/// Abstract value of an [`ApiKey`] row.
pub struct ApiKeyV {
    pub id: u128,
    pub user_id: u128,
    pub name: Seq<char>,
    pub key_hash: Seq<char>,
    pub last_used_at: Option<u64>,
    pub created_at: u64,
}

impl View for ApiKey {
    type V = ApiKeyV;

    open spec fn view(&self) -> ApiKeyV {
        ApiKeyV {
            id: self.id,
            user_id: self.user_id,
            name: self.name@,
            key_hash: self.key_hash@,
            last_used_at: self.last_used_at,
            created_at: self.created_at,
        }
    }
}

/// Abstract value of a [`Connection`] row.
pub struct ConnectionV {
    pub id: u128,
    pub user_id: u128,
    pub name: Seq<char>,
    pub host: Seq<char>,
    pub port: i32,
    pub username: Seq<char>,
    pub ssh_key_id: Option<u128>,
    pub startup_command: Option<Seq<char>>,
    pub created_at: u64,
}

impl View for Connection {
    type V = ConnectionV;

    open spec fn view(&self) -> ConnectionV {
        ConnectionV {
            id: self.id,
            user_id: self.user_id,
            name: self.name@,
            host: self.host@,
            port: self.port,
            username: self.username@,
            ssh_key_id: self.ssh_key_id,
            startup_command: match self.startup_command {
                Some(c) => Some(c@),
                None => None,
            },
            created_at: self.created_at,
        }
    }
}

/// Abstract value of a [`Session`] row.
pub struct SessionV {
    pub id: u128,
    pub user_id: u128,
    pub connection_id: u128,
    pub status: SessionStatus,
    pub created_at: u64,
    pub last_activity: u64,
}

impl View for Session {
    type V = SessionV;

    open spec fn view(&self) -> SessionV {
        SessionV {
            id: self.id,
            user_id: self.user_id,
            connection_id: self.connection_id,
            status: self.status,
            created_at: self.created_at,
            last_activity: self.last_activity,
        }
    }
}

/// The broker's persisted state.
#[derive(Debug)]
pub struct Store {
    pub users: Vec<User>,
    pub api_keys: Vec<ApiKey>,
    pub connections: Vec<Connection>,
    pub sessions: Vec<Session>,
    pub scrollback: Vec<ChunkLog>,
    pub clock: u64,
}

/// Relies on uuid::Uuid::new_v4: a freshly drawn random identifier, returned
/// as its 128-bit value. Nothing is promised of it.
#[verifier::external_body]
fn new_uuid() -> u128 {
    uuid::Uuid::new_v4().as_u128()
}

impl Store {
    /// A user row with this id exists.
    pub open spec fn has_user(self, id: u128) -> bool {
        exists|i: int| 0 <= i < self.users@.len() && (#[trigger] self.users@[i]).id == id
    }

    /// A user row with this username exists.
    pub open spec fn has_username(self, name: Seq<char>) -> bool {
        exists|i: int| 0 <= i < self.users@.len() && (#[trigger] self.users@[i]).username@ == name
    }

    /// A connection row with this id exists.
    pub open spec fn has_connection(self, id: u128) -> bool {
        exists|i: int| 0 <= i < self.connections@.len() && (#[trigger] self.connections@[i]).id
            == id
    }

    /// A session row with this id exists.
    pub open spec fn has_session(self, id: u128) -> bool {
        exists|i: int| 0 <= i < self.sessions@.len() && (#[trigger] self.sessions@[i]).id == id
    }

    /// An API key row with this id exists.
    pub open spec fn has_api_key(self, id: u128) -> bool {
        exists|i: int| 0 <= i < self.api_keys@.len() && (#[trigger] self.api_keys@[i]).id == id
    }

    /// An API key row with this stored hash exists.
    pub open spec fn has_key_hash(self, hash: Seq<char>) -> bool {
        exists|i: int| 0 <= i < self.api_keys@.len() && (#[trigger] self.api_keys@[i]).key_hash@
            == hash
    }

    /// A session row with this id exists and is closed.
    pub open spec fn session_closed(self, id: u128) -> bool {
        exists|i: int|
            0 <= i < self.sessions@.len() && (#[trigger] self.sessions@[i]).id == id
                && self.sessions@[i].status is Closed
    }

    /// A scrollback log for this session exists.
    pub open spec fn has_log(self, session_id: u128) -> bool {
        exists|i: int|
            0 <= i < self.scrollback@.len() && (#[trigger] self.scrollback@[i]).session_id
                == session_id
    }

    /// Index of the scrollback log for a session (meaningful when it exists;
    /// unique under `wf`).
    pub open spec fn log_index(self, session_id: u128) -> int {
        choose|i: int|
            0 <= i < self.scrollback@.len() && (#[trigger] self.scrollback@[i]).session_id
                == session_id
    }

    /// The bytes recorded for a session; empty when nothing is recorded.
    pub open spec fn log_bytes(self, session_id: u128) -> Seq<u8> {
        if self.has_log(session_id) {
            self.scrollback@[self.log_index(session_id)].bytes()
        } else {
            Seq::empty()
        }
    }

    /// User rows carry unique ids and unique usernames.
    pub open spec fn users_wf(self) -> bool {
        &&& forall|i: int, j: int|
            0 <= i < j < self.users@.len() ==> (#[trigger] self.users@[i]).id != (
            #[trigger] self.users@[j]).id
        &&& forall|i: int, j: int|
            0 <= i < j < self.users@.len() ==> (#[trigger] self.users@[i]).username@ != (
            #[trigger] self.users@[j]).username@
    }

    /// API key rows carry unique ids and reference existing users.
    pub open spec fn api_keys_wf(self) -> bool {
        &&& forall|i: int, j: int|
            0 <= i < j < self.api_keys@.len() ==> (#[trigger] self.api_keys@[i]).id != (
            #[trigger] self.api_keys@[j]).id
        &&& forall|i: int|
            0 <= i < self.api_keys@.len() ==> self.has_user(
                (#[trigger] self.api_keys@[i]).user_id,
            )
    }

    /// Connection rows carry unique ids and reference existing users.
    pub open spec fn connections_wf(self) -> bool {
        &&& forall|i: int, j: int|
            0 <= i < j < self.connections@.len() ==> (#[trigger] self.connections@[i]).id != (
            #[trigger] self.connections@[j]).id
        &&& forall|i: int|
            0 <= i < self.connections@.len() ==> self.has_user(
                (#[trigger] self.connections@[i]).user_id,
            )
    }

    /// Session rows carry unique ids and reference existing users and
    /// connections.
    pub open spec fn sessions_wf(self) -> bool {
        &&& forall|i: int, j: int|
            0 <= i < j < self.sessions@.len() ==> (#[trigger] self.sessions@[i]).id != (
            #[trigger] self.sessions@[j]).id
        &&& forall|i: int|
            0 <= i < self.sessions@.len() ==> self.has_user(
                (#[trigger] self.sessions@[i]).user_id,
            )
        &&& forall|i: int|
            0 <= i < self.sessions@.len() ==> self.has_connection(
                (#[trigger] self.sessions@[i]).connection_id,
            )
    }

    /// At most one scrollback log per session; each references an existing
    /// session and is well-shaped, non-empty and of addressable size.
    pub open spec fn scrollback_wf(self) -> bool {
        &&& forall|i: int, j: int|
            0 <= i < j < self.scrollback@.len() ==> (#[trigger] self.scrollback@[i]).session_id
                != (#[trigger] self.scrollback@[j]).session_id
        &&& forall|i: int|
            0 <= i < self.scrollback@.len() ==> self.has_session(
                (#[trigger] self.scrollback@[i]).session_id,
            )
        &&& forall|i: int| 0 <= i < self.scrollback@.len() ==> (#[trigger] self.scrollback@[i]).wf()
        &&& forall|i: int|
            0 <= i < self.scrollback@.len() ==> (#[trigger] self.scrollback@[i]).chunks@.len() > 0
        &&& forall|i: int|
            0 <= i < self.scrollback@.len() ==> (#[trigger] self.scrollback@[i]).bytes().len()
                <= usize::MAX
    }

    /// Index of the session row with this id (meaningful when it exists;
    /// unique under `wf`).
    pub open spec fn session_index(self, id: u128) -> int {
        choose|i: int| 0 <= i < self.sessions@.len() && (#[trigger] self.sessions@[i]).id == id
    }

    /// The owner of the session row with this id.
    pub open spec fn session_user(self, id: u128) -> u128 {
        self.sessions@[self.session_index(id)].user_id
    }

    /// The connection the session row with this id targets.
    pub open spec fn session_connection(self, id: u128) -> u128 {
        self.sessions@[self.session_index(id)].connection_id
    }

    /// The session row with this id is in the `Active` state.
    pub open spec fn session_is_active(self, id: u128) -> bool {
        self.sessions@[self.session_index(id)].status is Active
    }

    /// The session index of a session row is the position of any row
    /// carrying its id.
    pub proof fn lemma_session_index_unique(self, id: u128, i: int)
        requires
            forall|a: int, b: int|
                0 <= a < b < self.sessions@.len() ==> (#[trigger] self.sessions@[a]).id != (
                #[trigger] self.sessions@[b]).id,
            0 <= i < self.sessions@.len(),
            self.sessions@[i].id == id,
        ensures
            self.has_session(id),
            self.session_index(id) == i,
    {
        assert(self.has_session(id));
        let c = self.session_index(id);
        if c < i {
            assert(self.sessions@[c].id != self.sessions@[i].id);
        } else if c > i {
            assert(self.sessions@[i].id != self.sessions@[c].id);
        }
    }

    /// Index of the connection row with this id (meaningful when it exists;
    /// unique under `wf`).
    pub open spec fn connection_index(self, id: u128) -> int {
        choose|i: int|
            0 <= i < self.connections@.len() && (#[trigger] self.connections@[i]).id == id
    }

    /// The owner of the connection row with this id.
    pub open spec fn connection_user(self, id: u128) -> u128 {
        self.connections@[self.connection_index(id)].user_id
    }

    /// The connection index of a connection row is the position of any row
    /// carrying its id.
    pub proof fn lemma_connection_index_unique(self, id: u128, i: int)
        requires
            forall|a: int, b: int|
                0 <= a < b < self.connections@.len() ==> (#[trigger] self.connections@[a]).id
                    != (#[trigger] self.connections@[b]).id,
            0 <= i < self.connections@.len(),
            self.connections@[i].id == id,
        ensures
            self.has_connection(id),
            self.connection_index(id) == i,
    {
        assert(self.has_connection(id));
        let c = self.connection_index(id);
        if c < i {
            assert(self.connections@[c].id != self.connections@[i].id);
        } else if c > i {
            assert(self.connections@[i].id != self.connections@[c].id);
        }
    }

    /// Structural invariant: row identifiers and usernames are unique, every
    /// foreign key resolves, and scrollback logs are well-shaped, non-empty,
    /// one per session, and of addressable size.
    pub open spec fn wf(self) -> bool {
        &&& self.users_wf()
        &&& self.api_keys_wf()
        &&& self.connections_wf()
        &&& self.sessions_wf()
        &&& self.scrollback_wf()
    }

    /// Fresh, empty store.
    pub fn new() -> (s: Store)
        ensures
            s.wf(),
            s.users@.len() == 0,
            s.api_keys@.len() == 0,
            s.connections@.len() == 0,
            s.sessions@.len() == 0,
            s.scrollback@.len() == 0,
    {
        Store {
            users: Vec::new(),
            api_keys: Vec::new(),
            connections: Vec::new(),
            sessions: Vec::new(),
            scrollback: Vec::new(),
            clock: 0,
        }
    }

    /// Advance the logical clock; saturates at the top of its range.
    fn tick(&mut self)
        ensures
            *final(self) == (Store { clock: final(self).clock, ..*old(self) }),
            final(self).clock >= old(self).clock,
    {
        if self.clock < u64::MAX {
            self.clock = self.clock + 1;
        }
    }
}

/// No session row that is closed in `pre` is ever anything but closed in
/// `post`: the `active -> closed` transition cannot be reversed.
pub open spec fn status_monotone(pre: Store, post: Store) -> bool {
    forall|id: u128| #[trigger] pre.session_closed(id) ==> post.session_closed(id)
}

/// A key just issued resolves: once its row is stored, a lookup by the
/// key's hash finds a row, so validation succeeds until the key is revoked.
pub proof fn lemma_created_key_resolvable(pre: Store, post: Store, k: ApiKeyV)
    requires
        post.api_keys_v() == pre.api_keys_v().push(k),
    ensures
        post.has_key_hash(k.key_hash),
{
    let n = pre.api_keys_v().len() as int;
    assert(post.api_keys@.len() == post.api_keys_v().len());
    assert(post.api_keys_v().len() == n + 1);
    assert(post.api_keys_v()[n] == k);
    assert(post.api_keys@[n]@ == k);
    assert(post.api_keys@[n].key_hash@ == k.key_hash);
}

/// Closed sessions stay closed across any sequence of store operations.
pub proof fn lemma_status_monotone_trans(a: Store, b: Store, c: Store)
    requires
        status_monotone(a, b),
        status_monotone(b, c),
    ensures
        status_monotone(a, c),
{
}

/// Abstract values of a sequence of user rows.
pub open spec fn user_views(s: Seq<User>) -> Seq<UserV> {
    s.map_values(|u: User| u@)
}

/// Abstract values of a sequence of API key rows.
pub open spec fn key_views(s: Seq<ApiKey>) -> Seq<ApiKeyV> {
    s.map_values(|k: ApiKey| k@)
}

/// Abstract values of a sequence of connection rows.
pub open spec fn connection_views(s: Seq<Connection>) -> Seq<ConnectionV> {
    s.map_values(|c: Connection| c@)
}

/// Abstract values of a sequence of session rows.
pub open spec fn session_views(s: Seq<Session>) -> Seq<SessionV> {
    s.map_values(|r: Session| r@)
}

impl Store {
    /// Abstract values of the user rows, in insertion order.
    pub open spec fn users_v(self) -> Seq<UserV> {
        user_views(self.users@)
    }

    /// Abstract values of the API key rows, in insertion order.
    pub open spec fn api_keys_v(self) -> Seq<ApiKeyV> {
        key_views(self.api_keys@)
    }

    /// Abstract values of the connection rows, in insertion order.
    pub open spec fn connections_v(self) -> Seq<ConnectionV> {
        connection_views(self.connections@)
    }

    /// Abstract values of the session rows, in insertion order.
    pub open spec fn sessions_v(self) -> Seq<SessionV> {
        session_views(self.sessions@)
    }

    /// Every user id present in `pre` is present in `post`.
    pub proof fn lemma_users_grow(pre: Store, post: Store)
        requires
            pre.users@.len() <= post.users@.len(),
            forall|i: int|
                0 <= i < pre.users@.len() ==> (#[trigger] post.users@[i]).id == pre.users@[i].id,
        ensures
            forall|x: u128| #[trigger] pre.has_user(x) ==> post.has_user(x),
    {
        assert forall|x: u128| pre.has_user(x) implies post.has_user(x) by {
            let i = choose|i: int|
                0 <= i < pre.users@.len() && (#[trigger] pre.users@[i]).id == x;
            assert(post.users@[i].id == x);
        }
    }

    /// Every connection id present in `pre` is present in `post`.
    pub proof fn lemma_connections_grow(pre: Store, post: Store)
        requires
            pre.connections@.len() <= post.connections@.len(),
            forall|i: int|
                0 <= i < pre.connections@.len() ==> (#[trigger] post.connections@[i]).id
                    == pre.connections@[i].id,
        ensures
            forall|x: u128| #[trigger] pre.has_connection(x) ==> post.has_connection(x),
    {
        assert forall|x: u128| pre.has_connection(x) implies post.has_connection(x) by {
            let i = choose|i: int|
                0 <= i < pre.connections@.len() && (#[trigger] pre.connections@[i]).id == x;
            assert(post.connections@[i].id == x);
        }
    }

    /// Every session id present in `pre` is present in `post`.
    pub proof fn lemma_sessions_grow(pre: Store, post: Store)
        requires
            pre.sessions@.len() <= post.sessions@.len(),
            forall|i: int|
                0 <= i < pre.sessions@.len() ==> (#[trigger] post.sessions@[i]).id
                    == pre.sessions@[i].id,
        ensures
            forall|x: u128| #[trigger] pre.has_session(x) ==> post.has_session(x),
    {
        assert forall|x: u128| pre.has_session(x) implies post.has_session(x) by {
            let i = choose|i: int|
                0 <= i < pre.sessions@.len() && (#[trigger] pre.sessions@[i]).id == x;
            assert(post.sessions@[i].id == x);
        }
    }
}

/// Position of the user row with the given username, if any.
pub(crate) fn find_user_index_by_name(store: &Store, username: &str) -> (r: Option<usize>)
    ensures
        match r {
            Some(i) => i < store.users@.len() && store.users@[i as int].username@ == username@,
            None => !store.has_username(username@),
        },
{
    let target = username.to_owned();
    let n = store.users.len();
    let mut i: usize = 0;
    while i < n
        invariant
            n == store.users@.len(),
            i <= n,
            target@ == username@,
            forall|j: int| 0 <= j < i ==> (#[trigger] store.users@[j]).username@ != username@,
        decreases n - i,
    {
        if store.users[i].username == target {
            return Some(i);
        }
        i = i + 1;
    }
    None
}

/// Position of the user row with the given id, if any.
pub(crate) fn find_user_index_by_id(store: &Store, id: u128) -> (r: Option<usize>)
    ensures
        match r {
            Some(i) => i < store.users@.len() && store.users@[i as int].id == id,
            None => !store.has_user(id),
        },
{
    let n = store.users.len();
    let mut i: usize = 0;
    while i < n
        invariant
            n == store.users@.len(),
            i <= n,
            forall|j: int| 0 <= j < i ==> (#[trigger] store.users@[j]).id != id,
        decreases n - i,
    {
        if store.users[i].id == id {
            return Some(i);
        }
        i = i + 1;
    }
    None
}

impl User {
    /// Field-by-field copy of this row.
    pub fn duplicate(&self) -> (r: User)
        ensures
            r@ == self@,
    {
        User { id: self.id, username: self.username.clone(), created_at: self.created_at }
    }

    /// Insert a user row under a caller-chosen id: the store's insert, with
    /// its unique-username and primary-key constraints. Succeeds exactly
    /// when the username is free and the id is unused.
    pub fn create_with_id(store: &mut Store, id: u128, username: &str) -> (r: Result<
        User,
        HiveError,
    >)
        requires
            old(store).wf(),
        ensures
            final(store).wf(),
            status_monotone(*old(store), *final(store)),
            final(store).api_keys@ == old(store).api_keys@,
            final(store).connections@ == old(store).connections@,
            final(store).sessions@ == old(store).sessions@,
            final(store).scrollback@ == old(store).scrollback@,
            r is Ok <==> (!old(store).has_username(username@) && !old(store).has_user(id)),
            match r {
                Ok(u) => {
                    &&& u.id == id
                    &&& !old(store).has_user(u.id)
                    &&& !old(store).has_username(username@)
                    &&& u@.username == username@
                    &&& u@.created_at == old(store).clock
                    &&& final(store).users_v() == old(store).users_v().push(u@)
                    &&& final(store).has_user(u.id)
                    &&& final(store).has_username(username@)
                },
                Err(e) => e is Database && *final(store) == *old(store),
            },
    {
        if find_user_index_by_name(store, username).is_some() {
            return Err(HiveError::Database("unique constraint: users.username".to_owned()));
        }
        if find_user_index_by_id(store, id).is_some() {
            return Err(HiveError::Database("unique constraint: users.id".to_owned()));
        }
        let ghost pre = *store;
        let user = User { id, username: username.to_owned(), created_at: store.clock };
        let result = user.duplicate();
        store.users.push(user);
        store.tick();
        proof {
            Store::lemma_users_grow(pre, *store);
            assert(store.users_v() =~= pre.users_v().push(result@));
            let n = pre.users@.len() as int;
            assert(store.users@[n].id == result.id);
            assert(store.users@[n].username@ == result.username@);
        }
        Ok(result)
    }

    /// Insert a new user row under a freshly drawn id. Fails as the
    /// unique-username constraint does when the username is taken, and as
    /// the primary-key constraint does in the unlikely event the drawn id
    /// collides; with no user rows at all no collision is possible.
    pub fn create(store: &mut Store, username: &str) -> (r: Result<User, HiveError>)
        requires
            old(store).wf(),
        ensures
            final(store).wf(),
            status_monotone(*old(store), *final(store)),
            final(store).api_keys@ == old(store).api_keys@,
            final(store).connections@ == old(store).connections@,
            final(store).sessions@ == old(store).sessions@,
            final(store).scrollback@ == old(store).scrollback@,
            match r {
                Ok(u) => {
                    &&& !old(store).has_user(u.id)
                    &&& !old(store).has_username(username@)
                    &&& u@.username == username@
                    &&& u@.created_at == old(store).clock
                    &&& final(store).users_v() == old(store).users_v().push(u@)
                    &&& final(store).has_user(u.id)
                    &&& final(store).has_username(username@)
                },
                Err(e) => e is Database && *final(store) == *old(store),
            },
            old(store).has_username(username@) ==> r is Err,
            old(store).users@.len() == 0 ==> r is Ok,
    {
        let id = new_uuid();
        Self::create_with_id(store, id, username)
    }

    /// Look up a user by username.
    pub fn find_by_username(store: &Store, username: &str) -> (r: Result<
        Option<User>,
        HiveError,
    >)
        requires
            store.wf(),
        ensures
            match r {
                Ok(Some(u)) => exists|i: int|
                    0 <= i < store.users@.len() && (#[trigger] store.users@[i])@ == u@
                        && u@.username == username@,
                Ok(None) => !store.has_username(username@),
                Err(_) => false,
            },
    {
        match find_user_index_by_name(store, username) {
            Some(i) => Ok(Some(store.users[i].duplicate())),
            None => Ok(None),
        }
    }

    /// Look up a user by id.
    pub fn find_by_id(store: &Store, id: u128) -> (r: Result<Option<User>, HiveError>)
        requires
            store.wf(),
        ensures
            match r {
                Ok(Some(u)) => exists|i: int|
                    0 <= i < store.users@.len() && (#[trigger] store.users@[i])@ == u@ && u@.id
                        == id,
                Ok(None) => !store.has_user(id),
                Err(_) => false,
            },
    {
        match find_user_index_by_id(store, id) {
            Some(i) => Ok(Some(store.users[i].duplicate())),
            None => Ok(None),
        }
    }

    /// All users, in insertion order.
    pub fn list(store: &Store) -> (r: Result<Vec<User>, HiveError>)
        requires
            store.wf(),
        ensures
            match r {
                Ok(us) => us@.map_values(|u: User| u@) == store.users_v(),
                Err(_) => false,
            },
    {
        let mut us: Vec<User> = Vec::new();
        let n = store.users.len();
        let mut i: usize = 0;
        while i < n
            invariant
                n == store.users@.len(),
                i <= n,
                us@.len() == i,
                forall|j: int| 0 <= j < i ==> (#[trigger] us@[j])@ == store.users@[j]@,
            decreases n - i,
        {
            us.push(store.users[i].duplicate());
            i = i + 1;
        }
        proof {
            assert(us@.map_values(|u: User| u@) =~= store.users_v());
        }
        Ok(us)
    }
}

/// Keep keys whose stored hash differs from `h`.
pub open spec fn keeps_other_hashes(h: Seq<char>) -> spec_fn(ApiKeyV) -> bool {
    |k: ApiKeyV| k.key_hash != h
}

/// Keep keys whose id differs from `id`.
pub open spec fn keeps_other_ids(id: u128) -> spec_fn(ApiKeyV) -> bool {
    |k: ApiKeyV| k.id != id
}

/// Keep keys owned by `user_id`.
pub open spec fn owned_by(user_id: u128) -> spec_fn(ApiKeyV) -> bool {
    |k: ApiKeyV| k.user_id == user_id
}

/// One step of filtering a growing prefix.
proof fn lemma_filter_take_step<A>(s: Seq<A>, pred: spec_fn(A) -> bool, i: int)
    requires
        0 <= i < s.len(),
    ensures
        pred(s[i]) ==> s.take(i + 1).filter(pred) == s.take(i).filter(pred).push(s[i]),
        !pred(s[i]) ==> s.take(i + 1).filter(pred) == s.take(i).filter(pred),
    decreases s.len(),
{
    assert(s.take(i + 1).drop_last() =~= s.take(i));
    assert(s.take(i + 1).last() == s[i]);
    reveal_with_fuel(Seq::filter, 2);
}

/// Filtering keeps a sequence whose elements all pass the predicate.
proof fn lemma_filter_all<A>(s: Seq<A>, pred: spec_fn(A) -> bool)
    requires
        forall|i: int| 0 <= i < s.len() ==> pred(#[trigger] s[i]),
    ensures
        s.filter(pred) == s,
    decreases s.len(),
{
    reveal_with_fuel(Seq::filter, 2);
    if s.len() > 0 {
        lemma_filter_all(s.drop_last(), pred);
        assert(s.drop_last().push(s.last()) =~= s);
    }
}

/// Position of the first API key row with the given stored hash, if any.
pub(crate) fn find_key_index_by_hash(store: &Store, hash: &String) -> (r: Option<usize>)
    ensures
        match r {
            Some(i) => {
                &&& i < store.api_keys@.len()
                &&& store.api_keys@[i as int].key_hash@ == hash@
                &&& forall|j: int|
                    0 <= j < i ==> (#[trigger] store.api_keys@[j]).key_hash@ != hash@
            },
            None => !store.has_key_hash(hash@),
        },
{
    let n = store.api_keys.len();
    let mut i: usize = 0;
    while i < n
        invariant
            n == store.api_keys@.len(),
            i <= n,
            forall|j: int| 0 <= j < i ==> (#[trigger] store.api_keys@[j]).key_hash@ != hash@,
        decreases n - i,
    {
        if store.api_keys[i].key_hash == *hash {
            return Some(i);
        }
        i = i + 1;
    }
    None
}

/// Position of the API key row with the given id, if any.
pub(crate) fn find_key_index_by_id(store: &Store, id: u128) -> (r: Option<usize>)
    ensures
        match r {
            Some(i) => i < store.api_keys@.len() && store.api_keys@[i as int].id == id,
            None => !store.has_api_key(id),
        },
{
    let n = store.api_keys.len();
    let mut i: usize = 0;
    while i < n
        invariant
            n == store.api_keys@.len(),
            i <= n,
            forall|j: int| 0 <= j < i ==> (#[trigger] store.api_keys@[j]).id != id,
        decreases n - i,
    {
        if store.api_keys[i].id == id {
            return Some(i);
        }
        i = i + 1;
    }
    None
}

impl ApiKey {
    /// Field-by-field copy of this row.
    pub fn duplicate(&self) -> (r: ApiKey)
        ensures
            r@ == self@,
    {
        ApiKey {
            id: self.id,
            user_id: self.user_id,
            name: self.name.clone(),
            key_hash: self.key_hash.clone(),
            last_used_at: self.last_used_at,
            created_at: self.created_at,
        }
    }

    /// A fresh API key string: `"hive_"` followed by the lowercase hex
    /// encoding of 32 random bytes.
    pub fn generate_key() -> (r: String)
        ensures
            r@.len() == 69,
            r@.take(5) == "hive_"@,
            forall|i: int| 5 <= i < 69 ==> crypto::is_hex_char(#[trigger] r@[i]),
    {
        let bytes = crypto::random_key_bytes();
        let hexpart = crypto::hex_encode(bytes.as_slice());
        let mut key = "hive_".to_owned();
        key.append(hexpart.as_str());
        proof {
            reveal_strlit("hive_");
            crypto::lemma_hex_of_chars(bytes@);
            assert(key@.take(5) =~= "hive_"@);
        }
        key
    }

    /// The stored form of a key string: lowercase hex of its SHA-256
    /// digest, 64 hex digits.
    pub fn hash_key(key: &str) -> (r: String)
        ensures
            r@ == crypto::key_hash_of(key@),
            r@.len() == 64,
    {
        let digest = crypto::sha256(key.as_bytes());
        crypto::hex_encode(digest.as_slice())
    }

    /// Insert an API key row under a caller-chosen id, storing only the
    /// hash of `key`: the store's insert, with its foreign-key and
    /// primary-key constraints. Succeeds exactly when the user exists and
    /// the id is unused.
    pub fn create_with_id(
        store: &mut Store,
        id: u128,
        user_id: u128,
        name: &str,
        key: &str,
    ) -> (r: Result<ApiKey, HiveError>)
        requires
            old(store).wf(),
        ensures
            final(store).wf(),
            status_monotone(*old(store), *final(store)),
            final(store).users@ == old(store).users@,
            final(store).connections@ == old(store).connections@,
            final(store).sessions@ == old(store).sessions@,
            final(store).scrollback@ == old(store).scrollback@,
            r is Ok <==> (old(store).has_user(user_id) && !old(store).has_api_key(id)),
            match r {
                Ok(k) => {
                    &&& k.id == id
                    &&& old(store).has_user(user_id)
                    &&& !old(store).has_api_key(k.id)
                    &&& k@.user_id == user_id
                    &&& k@.name == name@
                    &&& k@.key_hash == crypto::key_hash_of(key@)
                    &&& k@.last_used_at is None
                    &&& k@.created_at == old(store).clock
                    &&& final(store).api_keys_v() == old(store).api_keys_v().push(k@)
                    &&& final(store).has_api_key(k.id)
                    &&& final(store).has_key_hash(crypto::key_hash_of(key@))
                },
                Err(e) => e is Database && *final(store) == *old(store),
            },
    {
        if find_user_index_by_id(store, user_id).is_none() {
            return Err(HiveError::Database("foreign key: api_keys.user_id".to_owned()));
        }
        if find_key_index_by_id(store, id).is_some() {
            return Err(HiveError::Database("unique constraint: api_keys.id".to_owned()));
        }
        let ghost pre = *store;
        let row = ApiKey {
            id,
            user_id,
            name: name.to_owned(),
            key_hash: Self::hash_key(key),
            last_used_at: None,
            created_at: store.clock,
        };
        let result = row.duplicate();
        store.api_keys.push(row);
        store.tick();
        proof {
            Store::lemma_users_grow(pre, *store);
            assert(store.api_keys_v() =~= pre.api_keys_v().push(result@));
            let n = pre.api_keys@.len() as int;
            assert(store.api_keys@[n].id == result.id);
            assert(store.api_keys@[n].key_hash@ == result.key_hash@);
        }
        Ok(result)
    }

    /// Insert a new API key row for `user_id` under a freshly drawn id,
    /// storing only the hash of `key`. Fails as the store's foreign-key
    /// constraint does when the user does not exist, and as its primary-key
    /// constraint does if the drawn id collides; with no key rows at all no
    /// collision is possible.
    pub fn create(store: &mut Store, user_id: u128, name: &str, key: &str) -> (r: Result<
        ApiKey,
        HiveError,
    >)
        requires
            old(store).wf(),
        ensures
            final(store).wf(),
            status_monotone(*old(store), *final(store)),
            final(store).users@ == old(store).users@,
            final(store).connections@ == old(store).connections@,
            final(store).sessions@ == old(store).sessions@,
            final(store).scrollback@ == old(store).scrollback@,
            match r {
                Ok(k) => {
                    &&& old(store).has_user(user_id)
                    &&& !old(store).has_api_key(k.id)
                    &&& k@.user_id == user_id
                    &&& k@.name == name@
                    &&& k@.key_hash == crypto::key_hash_of(key@)
                    &&& k@.last_used_at is None
                    &&& k@.created_at == old(store).clock
                    &&& final(store).api_keys_v() == old(store).api_keys_v().push(k@)
                    &&& final(store).has_api_key(k.id)
                    &&& final(store).has_key_hash(crypto::key_hash_of(key@))
                },
                Err(e) => e is Database && *final(store) == *old(store),
            },
            !old(store).has_user(user_id) ==> r is Err,
            old(store).api_keys@.len() == 0 && old(store).has_user(user_id) ==> r is Ok,
    {
        let id = new_uuid();
        Self::create_with_id(store, id, user_id, name, key)
    }

    /// Resolve a key string to its row and owning user; on a hit, the row's
    /// last-used time is set to the store's clock. Returns the first row
    /// whose stored hash matches, and nothing when none does.
    pub fn validate(store: &mut Store, key: &str) -> (r: Result<
        Option<(ApiKey, User)>,
        HiveError,
    >)
        requires
            old(store).wf(),
        ensures
            final(store).wf(),
            status_monotone(*old(store), *final(store)),
            final(store).users@ == old(store).users@,
            final(store).connections@ == old(store).connections@,
            final(store).sessions@ == old(store).sessions@,
            final(store).scrollback@ == old(store).scrollback@,
            match r {
                Ok(None) => !old(store).has_key_hash(crypto::key_hash_of(key@)) && *final(store)
                    == *old(store),
                Ok(Some((k, u))) => {
                    &&& old(store).has_key_hash(crypto::key_hash_of(key@))
                    &&& k@.key_hash == crypto::key_hash_of(key@)
                    &&& k@.last_used_at == Some(old(store).clock)
                    &&& u@.id == k@.user_id
                    &&& exists|m: int|
                        0 <= m < old(store).users@.len() && (#[trigger] old(store).users@[m])@
                            == u@
                    &&& exists|i: int|
                        {
                            &&& 0 <= i < old(store).api_keys@.len()
                            &&& (#[trigger] old(store).api_keys@[i]).key_hash@
                                == crypto::key_hash_of(key@)
                            &&& forall|j: int|
                                0 <= j < i ==> (#[trigger] old(store).api_keys@[j]).key_hash@
                                    != crypto::key_hash_of(key@)
                            &&& k@ == ApiKeyV {
                                last_used_at: Some(old(store).clock),
                                ..old(store).api_keys@[i]@
                            }
                            &&& final(store).api_keys_v() == old(store).api_keys_v().update(
                                i,
                                k@,
                            )
                        }
                },
                Err(_) => false,
            },
    {
        let hash = Self::hash_key(key);
        match find_key_index_by_hash(store, &hash) {
            None => Ok(None),
            Some(i) => {
                let ghost pre = *store;
                let mut row = store.api_keys.remove(i);
                row.last_used_at = Some(store.clock);
                let k = row.duplicate();
                store.api_keys.insert(i, row);
                store.tick();
                proof {
                    assert(store.api_keys_v() =~= pre.api_keys_v().update(i as int, k@));
                    assert(store.users@ == pre.users@);
                    assert(pre.has_user(k.user_id));
                    let m = choose|m: int|
                        0 <= m < pre.users@.len() && (#[trigger] pre.users@[m]).id == k.user_id;
                    assert(store.users@[m].id == k.user_id);
                    assert(store.has_user(k.user_id));
                }
                let user_idx = match find_user_index_by_id(store, k.user_id) {
                    Some(m) => m,
                    None => {
                        // unreachable: the store's foreign keys resolve
                        proof {
                            assert(false);
                        }
                        return Err(HiveError::Auth("user not found for API key".to_owned()));
                    },
                };
                let u = store.users[user_idx].duplicate();
                Ok(Some((k, u)))
            },
        }
    }

    /// API keys owned by `user_id`, in insertion order.
    pub fn list_for_user(store: &Store, user_id: u128) -> (r: Result<Vec<ApiKey>, HiveError>)
        requires
            store.wf(),
        ensures
            match r {
                Ok(ks) => key_views(ks@) == store.api_keys_v().filter(owned_by(user_id)),
                Err(_) => false,
            },
    {
        let mut ks: Vec<ApiKey> = Vec::new();
        let n = store.api_keys.len();
        let mut i: usize = 0;
        proof {
            assert(store.api_keys_v().take(0).filter(owned_by(user_id)) =~= key_views(ks@));
        }
        while i < n
            invariant
                store.wf(),
                n == store.api_keys@.len(),
                i <= n,
                key_views(ks@) == store.api_keys_v().take(i as int).filter(owned_by(user_id)),
            decreases n - i,
        {
            proof {
                lemma_filter_take_step(store.api_keys_v(), owned_by(user_id), i as int);
            }
            let ghost before = ks@;
            if store.api_keys[i].user_id == user_id {
                ks.push(store.api_keys[i].duplicate());
                proof {
                    assert(key_views(ks@) =~= key_views(before).push(
                        store.api_keys@[i as int]@,
                    ));
                }
            }
            i = i + 1;
        }
        proof {
            assert(store.api_keys_v().take(n as int) =~= store.api_keys_v());
        }
        Ok(ks)
    }

    /// Delete every key row whose stored hash matches `key`'s hash; reports
    /// whether any row was removed. Removing a key that is already gone
    /// removes nothing and reports false.
    pub fn revoke(store: &mut Store, key: &str) -> (r: Result<bool, HiveError>)
        requires
            old(store).wf(),
        ensures
            final(store).wf(),
            status_monotone(*old(store), *final(store)),
            final(store).users@ == old(store).users@,
            final(store).connections@ == old(store).connections@,
            final(store).sessions@ == old(store).sessions@,
            final(store).scrollback@ == old(store).scrollback@,
            final(store).api_keys_v() == old(store).api_keys_v().filter(
                keeps_other_hashes(crypto::key_hash_of(key@)),
            ),
            !final(store).has_key_hash(crypto::key_hash_of(key@)),
            match r {
                Ok(b) => b == old(store).has_key_hash(crypto::key_hash_of(key@)),
                Err(_) => false,
            },
            !old(store).has_key_hash(crypto::key_hash_of(key@)) ==> final(store).api_keys_v()
                == old(store).api_keys_v(),
    {
        let hash = Self::hash_key(key);
        let r = remove_keys(store, KeySelector::ByHash, &hash, 0);
        proof {
            let pred = keeps_other_hashes(crypto::key_hash_of(key@));
            if !old(store).has_key_hash(crypto::key_hash_of(key@)) {
                assert forall|j: int| 0 <= j < old(store).api_keys_v().len() implies pred(
                    #[trigger] old(store).api_keys_v()[j],
                ) by {
                    assert(old(store).api_keys_v()[j] == old(store).api_keys@[j]@);
                }
                lemma_filter_all(old(store).api_keys_v(), pred);
            }
        }
        Ok(r)
    }

    /// Delete the key row with the given id; reports whether it existed.
    pub fn revoke_by_id(store: &mut Store, id: u128) -> (r: Result<bool, HiveError>)
        requires
            old(store).wf(),
        ensures
            final(store).wf(),
            status_monotone(*old(store), *final(store)),
            final(store).users@ == old(store).users@,
            final(store).connections@ == old(store).connections@,
            final(store).sessions@ == old(store).sessions@,
            final(store).scrollback@ == old(store).scrollback@,
            final(store).api_keys_v() == old(store).api_keys_v().filter(keeps_other_ids(id)),
            !final(store).has_api_key(id),
            match r {
                Ok(b) => b == old(store).has_api_key(id),
                Err(_) => false,
            },
    {
        let unused = String::new();
        let r = remove_keys(store, KeySelector::ById, &unused, id);
        Ok(r)
    }
}

/// Which column a key-row removal matches on.
#[derive(Debug, Clone, Copy, PartialEq, Eq, Structural)]
enum KeySelector {
    ByHash,
    ById,
}

/// The predicate a selector keeps: rows that do not match it.
spec fn selector_keeps(sel: KeySelector, hash: Seq<char>, id: u128) -> spec_fn(ApiKeyV) -> bool {
    match sel {
        KeySelector::ByHash => keeps_other_hashes(hash),
        KeySelector::ById => keeps_other_ids(id),
    }
}

/// Remove every API key row matching the selector; reports whether any row
/// was removed.
fn remove_keys(store: &mut Store, sel: KeySelector, hash: &String, id: u128) -> (removed: bool)
    requires
        old(store).wf(),
    ensures
        final(store).wf(),
        status_monotone(*old(store), *final(store)),
        final(store).users@ == old(store).users@,
        final(store).connections@ == old(store).connections@,
        final(store).sessions@ == old(store).sessions@,
        final(store).scrollback@ == old(store).scrollback@,
        final(store).clock == old(store).clock,
        final(store).api_keys_v() == old(store).api_keys_v().filter(
            selector_keeps(sel, hash@, id),
        ),
        sel is ByHash ==> removed == old(store).has_key_hash(hash@),
        sel is ById ==> removed == old(store).has_api_key(id),
        sel is ByHash ==> !final(store).has_key_hash(hash@),
        sel is ById ==> !final(store).has_api_key(id),
{
    let ghost pred = selector_keeps(sel, hash@, id);
    let mut kept: Vec<ApiKey> = Vec::new();
    let ghost mut poss: Seq<int> = Seq::empty();
    let mut removed = false;
    let n = store.api_keys.len();
    let mut i: usize = 0;
    proof {
        assert(old(store).api_keys_v().take(0).filter(pred) =~= key_views(kept@));
    }
    while i < n
        invariant
            store.wf(),
            *store == *old(store),
            n == store.api_keys@.len(),
            i <= n,
            key_views(kept@) == old(store).api_keys_v().take(i as int).filter(pred),
            pred == selector_keeps(sel, hash@, id),
            sel is ByHash ==> removed == exists|j: int|
                0 <= j < i && (#[trigger] old(store).api_keys@[j]).key_hash@ == hash@,
            sel is ById ==> removed == exists|j: int|
                0 <= j < i && (#[trigger] old(store).api_keys@[j]).id == id,
            poss.len() == kept@.len(),
            forall|j: int| 0 <= j < poss.len() ==> 0 <= #[trigger] poss[j] < i,
            forall|j1: int, j2: int| 0 <= j1 < j2 < poss.len() ==> poss[j1] < poss[j2],
            forall|j: int|
                0 <= j < poss.len() ==> (#[trigger] kept@[j]).id
                    == old(store).api_keys@[poss[j]].id && kept@[j].user_id
                    == old(store).api_keys@[poss[j]].user_id,
        decreases n - i,
    {
        proof {
            lemma_filter_take_step(old(store).api_keys_v(), pred, i as int);
            assert(old(store).api_keys_v()[i as int] == old(store).api_keys@[i as int]@);
        }
        let ghost before = kept@;
        let keep = match sel {
            KeySelector::ByHash => !(store.api_keys[i].key_hash == *hash),
            KeySelector::ById => !(store.api_keys[i].id == id),
        };
        if keep {
            kept.push(store.api_keys[i].duplicate());
            proof {
                poss = poss.push(i as int);
                assert(key_views(kept@) =~= key_views(before).push(store.api_keys@[i as int]@));
            }
        } else {
            removed = true;
        }
        i = i + 1;
    }
    proof {
        assert(old(store).api_keys_v().take(n as int) =~= old(store).api_keys_v());
    }
    store.api_keys = kept;
    proof {
        let v = old(store).api_keys_v();
        assert forall|m: int| 0 <= m < store.api_keys@.len() implies pred(
            (#[trigger] store.api_keys@[m])@,
        ) by {
            v.lemma_filter_pred(pred, m);
            assert(key_views(store.api_keys@)[m] == store.api_keys@[m]@);
        }
        Store::lemma_users_grow(*old(store), *store);
        assert forall|j: int| 0 <= j < store.api_keys@.len() implies store.has_user(
            (#[trigger] store.api_keys@[j]).user_id,
        ) by {
            assert(old(store).has_user(old(store).api_keys@[poss[j]].user_id));
        }
    }
    removed
}

/// Session rows in most-recently-active-first order.
pub open spec fn sorted_by_activity_desc(s: Seq<Session>) -> bool {
    forall|i: int, j: int|
        0 <= i < j < s.len() ==> (#[trigger] s[i]).last_activity >= (#[trigger] s[j]).last_activity
}

/// Keep session rows owned by `user_id`.
pub open spec fn row_owned_by(user_id: u128) -> spec_fn(Session) -> bool {
    |r: Session| r.user_id == user_id
}

/// Keep active session rows owned by `user_id`.
pub open spec fn active_row_owned_by(user_id: u128) -> spec_fn(Session) -> bool {
    |r: Session| r.user_id == user_id && r.status is Active
}

/// Insert a session row into a list that is ordered most-recently-active
/// first, keeping the order; on equal activity the newcomer goes after the
/// rows already there.
fn insert_by_activity(list: &mut Vec<Session>, row: Session)
    requires
        sorted_by_activity_desc(old(list)@),
    ensures
        sorted_by_activity_desc(final(list)@),
        final(list)@.to_multiset() == old(list)@.to_multiset().insert(row),
        final(list)@.len() == old(list)@.len() + 1,
{
    let n = list.len();
    let mut p: usize = 0;
    while p < n && list[p].last_activity >= row.last_activity
        invariant
            n == list@.len(),
            p <= n,
            forall|q: int| 0 <= q < p ==> (#[trigger] list@[q]).last_activity
                >= row.last_activity,
        decreases n - p,
    {
        p = p + 1;
    }
    let ghost before = list@;
    list.insert(p, row);
    proof {
        broadcast use vstd::seq_lib::group_to_multiset_ensures;

        before.insert_ensures(p as int, row);
        assert forall|i: int, j: int| 0 <= i < j < list@.len() implies (
        #[trigger] list@[i]).last_activity >= (#[trigger] list@[j]).last_activity by {
            if i < p && j == p {
                assert(list@[i] == before[i]);
            } else if i == p && j > p {
                assert(list@[j] == before[j - 1]);
                assert(before[j - 1].last_activity <= before[p as int].last_activity);
            } else if i < p && j > p {
                assert(list@[i] == before[i] && list@[j] == before[j - 1]);
            } else if i > p && j > p {
                assert(list@[i] == before[i - 1] && list@[j] == before[j - 1]);
            } else {
                assert(list@[i] == before[i] && list@[j] == before[j]);
            }
        }
        assert(list@.to_multiset() =~= before.to_multiset().insert(row));
    }
}

/// Keep connections owned by `user_id`.
pub open spec fn connection_owned_by(user_id: u128) -> spec_fn(ConnectionV) -> bool {
    |c: ConnectionV| c.user_id == user_id
}

/// Position of the connection row with the given id, if any.
pub(crate) fn find_connection_index_by_id(store: &Store, id: u128) -> (r: Option<usize>)
    ensures
        match r {
            Some(i) => i < store.connections@.len() && store.connections@[i as int].id == id,
            None => !store.has_connection(id),
        },
{
    let n = store.connections.len();
    let mut i: usize = 0;
    while i < n
        invariant
            n == store.connections@.len(),
            i <= n,
            forall|j: int| 0 <= j < i ==> (#[trigger] store.connections@[j]).id != id,
        decreases n - i,
    {
        if store.connections[i].id == id {
            return Some(i);
        }
        i = i + 1;
    }
    None
}

/// Position of the session row with the given id, if any.
pub(crate) fn find_session_index_by_id(store: &Store, id: u128) -> (r: Option<usize>)
    ensures
        match r {
            Some(i) => i < store.sessions@.len() && store.sessions@[i as int].id == id,
            None => !store.has_session(id),
        },
{
    let n = store.sessions.len();
    let mut i: usize = 0;
    while i < n
        invariant
            n == store.sessions@.len(),
            i <= n,
            forall|j: int| 0 <= j < i ==> (#[trigger] store.sessions@[j]).id != id,
        decreases n - i,
    {
        if store.sessions[i].id == id {
            return Some(i);
        }
        i = i + 1;
    }
    None
}

/// Whether any session row references the given connection.
pub(crate) fn any_session_references(store: &Store, connection_id: u128) -> (r: bool)
    ensures
        r == exists|i: int|
            0 <= i < store.sessions@.len() && (#[trigger] store.sessions@[i]).connection_id
                == connection_id,
{
    let n = store.sessions.len();
    let mut i: usize = 0;
    while i < n
        invariant
            n == store.sessions@.len(),
            i <= n,
            forall|j: int|
                0 <= j < i ==> (#[trigger] store.sessions@[j]).connection_id != connection_id,
        decreases n - i,
    {
        if store.sessions[i].connection_id == connection_id {
            return true;
        }
        i = i + 1;
    }
    false
}

impl Connection {
    /// Field-by-field copy of this row.
    pub fn duplicate(&self) -> (r: Connection)
        ensures
            r@ == self@,
    {
        Connection {
            id: self.id,
            user_id: self.user_id,
            name: self.name.clone(),
            host: self.host.clone(),
            port: self.port,
            username: self.username.clone(),
            ssh_key_id: self.ssh_key_id,
            startup_command: match &self.startup_command {
                Some(c) => Some(c.clone()),
                None => None,
            },
            created_at: self.created_at,
        }
    }

    /// Insert a connection row under a caller-chosen id: the store's
    /// insert, with its foreign-key and primary-key constraints. Succeeds
    /// exactly when the user exists and the id is unused.
    pub fn create_with_id(
        store: &mut Store,
        id: u128,
        user_id: u128,
        name: &str,
        host: &str,
        port: i32,
        username: &str,
        ssh_key_id: Option<u128>,
        startup_command: Option<&str>,
    ) -> (r: Result<Connection, HiveError>)
        requires
            old(store).wf(),
        ensures
            final(store).wf(),
            status_monotone(*old(store), *final(store)),
            final(store).users@ == old(store).users@,
            final(store).api_keys@ == old(store).api_keys@,
            final(store).sessions@ == old(store).sessions@,
            final(store).scrollback@ == old(store).scrollback@,
            r is Ok <==> (old(store).has_user(user_id) && !old(store).has_connection(id)),
            match r {
                Ok(c) => {
                    &&& c.id == id
                    &&& old(store).has_user(user_id)
                    &&& !old(store).has_connection(c.id)
                    &&& c@.user_id == user_id
                    &&& c@.name == name@
                    &&& c@.host == host@
                    &&& c@.port == port
                    &&& c@.username == username@
                    &&& c@.ssh_key_id == ssh_key_id
                    &&& c@.startup_command == (match startup_command {
                        Some(sc) => Some(sc@),
                        None => None,
                    })
                    &&& c@.created_at == old(store).clock
                    &&& final(store).connections_v() == old(store).connections_v().push(c@)
                    &&& final(store).has_connection(c.id)
                },
                Err(e) => e is Database && *final(store) == *old(store),
            },
    {
        let uidx = match find_user_index_by_id(store, user_id) {
            Some(i) => i,
            None => {
                return Err(HiveError::Database("foreign key: connections.user_id".to_owned()));
            },
        };
        if find_connection_index_by_id(store, id).is_some() {
            return Err(HiveError::Database("unique constraint: connections.id".to_owned()));
        }
        let ghost pre = *store;
        proof {
            assert(pre.users@[uidx as int].id == user_id);
            assert(pre.has_user(user_id));
        }
        let row = Connection {
            id,
            user_id,
            name: name.to_owned(),
            host: host.to_owned(),
            port,
            username: username.to_owned(),
            ssh_key_id,
            startup_command: match startup_command {
                Some(sc) => Some(sc.to_owned()),
                None => None,
            },
            created_at: store.clock,
        };
        let result = row.duplicate();
        store.connections.push(row);
        store.tick();
        proof {
            Store::lemma_connections_grow(pre, *store);
            Store::lemma_users_grow(pre, *store);
            assert(store.connections_v() =~= pre.connections_v().push(result@));
            assert(store.connections@[pre.connections@.len() as int].id == result.id);
            assert forall|j: int| 0 <= j < store.sessions@.len() implies store.has_connection(
                (#[trigger] store.sessions@[j]).connection_id,
            ) by {
                assert(pre.has_connection(pre.sessions@[j].connection_id));
            }
            assert forall|j: int| 0 <= j < store.connections@.len() implies store.has_user(
                (#[trigger] store.connections@[j]).user_id,
            ) by {
                if j < pre.connections@.len() {
                    assert(pre.has_user(pre.connections@[j].user_id));
                } else {
                    assert(pre.has_user(user_id));
                }
            }
            assert(store.wf());
        }
        Ok(result)
    }

    /// Insert a new connection row for `user_id` under a freshly drawn id.
    /// Fails as the store's foreign-key constraint does when the user does
    /// not exist, and as its primary-key constraint does if the drawn id
    /// collides; with no connection rows at all no collision is possible.
    pub fn create(
        store: &mut Store,
        user_id: u128,
        name: &str,
        host: &str,
        port: i32,
        username: &str,
        ssh_key_id: Option<u128>,
        startup_command: Option<&str>,
    ) -> (r: Result<Connection, HiveError>)
        requires
            old(store).wf(),
        ensures
            final(store).wf(),
            status_monotone(*old(store), *final(store)),
            final(store).users@ == old(store).users@,
            final(store).api_keys@ == old(store).api_keys@,
            final(store).sessions@ == old(store).sessions@,
            final(store).scrollback@ == old(store).scrollback@,
            match r {
                Ok(c) => {
                    &&& old(store).has_user(user_id)
                    &&& !old(store).has_connection(c.id)
                    &&& c@.user_id == user_id
                    &&& c@.name == name@
                    &&& c@.host == host@
                    &&& c@.port == port
                    &&& c@.username == username@
                    &&& c@.ssh_key_id == ssh_key_id
                    &&& c@.startup_command == (match startup_command {
                        Some(sc) => Some(sc@),
                        None => None,
                    })
                    &&& c@.created_at == old(store).clock
                    &&& final(store).connections_v() == old(store).connections_v().push(c@)
                    &&& final(store).has_connection(c.id)
                },
                Err(e) => e is Database && *final(store) == *old(store),
            },
            !old(store).has_user(user_id) ==> r is Err,
            old(store).connections@.len() == 0 && old(store).has_user(user_id) ==> r is Ok,
    {
        let id = new_uuid();
        Self::create_with_id(store, id, user_id, name, host, port, username, ssh_key_id,
            startup_command)
    }

    /// Look up a connection by id.
    pub fn find_by_id(store: &Store, id: u128) -> (r: Result<Option<Connection>, HiveError>)
        requires
            store.wf(),
        ensures
            match r {
                Ok(Some(c)) => exists|i: int|
                    0 <= i < store.connections@.len() && (#[trigger] store.connections@[i])@
                        == c@ && c@.id == id,
                Ok(None) => !store.has_connection(id),
                Err(_) => false,
            },
    {
        match find_connection_index_by_id(store, id) {
            Some(i) => Ok(Some(store.connections[i].duplicate())),
            None => Ok(None),
        }
    }

    /// Connections owned by `user_id`, in insertion order.
    pub fn list_for_user(store: &Store, user_id: u128) -> (r: Result<Vec<Connection>, HiveError>)
        requires
            store.wf(),
        ensures
            match r {
                Ok(cs) => connection_views(cs@) == store.connections_v().filter(
                    connection_owned_by(user_id),
                ),
                Err(_) => false,
            },
    {
        let mut cs: Vec<Connection> = Vec::new();
        let n = store.connections.len();
        let mut i: usize = 0;
        proof {
            assert(store.connections_v().take(0).filter(connection_owned_by(user_id))
                =~= connection_views(cs@));
        }
        while i < n
            invariant
                store.wf(),
                n == store.connections@.len(),
                i <= n,
                connection_views(cs@) == store.connections_v().take(i as int).filter(
                    connection_owned_by(user_id),
                ),
            decreases n - i,
        {
            proof {
                lemma_filter_take_step(store.connections_v(), connection_owned_by(user_id), i as int);
                assert(store.connections_v()[i as int] == store.connections@[i as int]@);
            }
            let ghost before = cs@;
            if store.connections[i].user_id == user_id {
                cs.push(store.connections[i].duplicate());
                proof {
                    assert(connection_views(cs@) =~= connection_views(before).push(
                        store.connections@[i as int]@,
                    ));
                }
            }
            i = i + 1;
        }
        proof {
            assert(store.connections_v().take(n as int) =~= store.connections_v());
        }
        Ok(cs)
    }

    /// Rewrite the mutable fields of the connection with the given id;
    /// returns the updated row, or nothing when no such row exists. The id,
    /// owner and creation time are kept.
    pub fn update(
        store: &mut Store,
        id: u128,
        name: &str,
        host: &str,
        port: i32,
        username: &str,
        ssh_key_id: Option<u128>,
        startup_command: Option<&str>,
    ) -> (r: Result<Option<Connection>, HiveError>)
        requires
            old(store).wf(),
        ensures
            final(store).wf(),
            status_monotone(*old(store), *final(store)),
            final(store).users@ == old(store).users@,
            final(store).api_keys@ == old(store).api_keys@,
            final(store).sessions@ == old(store).sessions@,
            final(store).scrollback@ == old(store).scrollback@,
            match r {
                Ok(None) => !old(store).has_connection(id) && *final(store) == *old(store),
                Ok(Some(c)) => {
                    &&& c@.id == id
                    &&& c@.name == name@
                    &&& c@.host == host@
                    &&& c@.port == port
                    &&& c@.username == username@
                    &&& c@.ssh_key_id == ssh_key_id
                    &&& c@.startup_command == (match startup_command {
                        Some(sc) => Some(sc@),
                        None => None,
                    })
                    &&& exists|i: int|
                        {
                            &&& 0 <= i < old(store).connections@.len()
                            &&& (#[trigger] old(store).connections@[i]).id == id
                            &&& c@.user_id == old(store).connections@[i].user_id
                            &&& c@.created_at == old(store).connections@[i].created_at
                            &&& final(store).connections_v()
                                == old(store).connections_v().update(i, c@)
                        }
                },
                Err(_) => false,
            },
    {
        match find_connection_index_by_id(store, id) {
            None => Ok(None),
            Some(i) => {
                let ghost pre = *store;
                let old_row = store.connections.remove(i);
                let row = Connection {
                    id: old_row.id,
                    user_id: old_row.user_id,
                    name: name.to_owned(),
                    host: host.to_owned(),
                    port,
                    username: username.to_owned(),
                    ssh_key_id,
                    startup_command: match startup_command {
                        Some(sc) => Some(sc.to_owned()),
                        None => None,
                    },
                    created_at: old_row.created_at,
                };
                let result = row.duplicate();
                store.connections.insert(i, row);
                proof {
                    assert(store.connections@.len() == pre.connections@.len());
                    assert forall|j: int| 0 <= j < store.connections@.len() implies (
                    #[trigger] store.connections@[j]).id == pre.connections@[j].id
                        && store.connections@[j].user_id == pre.connections@[j].user_id by {
                        if j < i as int {
                            assert(store.connections@[j] == pre.connections@[j]);
                        } else if j > i as int {
                            assert(store.connections@[j] == pre.connections@[j]);
                        }
                    }
                    assert(store.connections_v() =~= pre.connections_v().update(
                        i as int,
                        result@,
                    ));
                    Store::lemma_connections_grow(pre, *store);
                    Store::lemma_users_grow(pre, *store);
                    assert forall|j: int|
                        0 <= j < store.sessions@.len() implies store.has_connection(
                        (#[trigger] store.sessions@[j]).connection_id,
                    ) by {
                        assert(pre.has_connection(pre.sessions@[j].connection_id));
                    }
                    assert forall|j: int|
                        0 <= j < store.connections@.len() implies store.has_user(
                        (#[trigger] store.connections@[j]).user_id,
                    ) by {
                        assert(pre.has_user(pre.connections@[j].user_id));
                    }
                    assert(store.wf());
                }
                Ok(Some(result))
            },
        }
    }

    /// Delete the connection with the given id; reports whether it existed.
    /// Fails as the store's foreign-key constraint does while any session
    /// still references the connection.
    pub fn delete(store: &mut Store, id: u128) -> (r: Result<bool, HiveError>)
        requires
            old(store).wf(),
        ensures
            final(store).wf(),
            status_monotone(*old(store), *final(store)),
            final(store).users@ == old(store).users@,
            final(store).api_keys@ == old(store).api_keys@,
            final(store).sessions@ == old(store).sessions@,
            final(store).scrollback@ == old(store).scrollback@,
            match r {
                Ok(b) => {
                    &&& b == old(store).has_connection(id)
                    &&& !final(store).has_connection(id)
                    &&& (!b ==> *final(store) == *old(store))
                    &&& (b ==> exists|i: int|
                        {
                            &&& 0 <= i < old(store).connections@.len()
                            &&& (#[trigger] old(store).connections@[i]).id == id
                            &&& final(store).connections_v()
                                == old(store).connections_v().remove(i)
                        })
                },
                Err(e) => {
                    &&& e is Database
                    &&& *final(store) == *old(store)
                    &&& exists|i: int|
                        0 <= i < old(store).sessions@.len() && (
                        #[trigger] old(store).sessions@[i]).connection_id == id
                },
            },
    {
        if any_session_references(store, id) {
            return Err(HiveError::Database("foreign key: sessions.connection_id".to_owned()));
        }
        match find_connection_index_by_id(store, id) {
            None => Ok(false),
            Some(i) => {
                let ghost pre = *store;
                let _removed = store.connections.remove(i);
                proof {
                    assert(store.connections_v() =~= pre.connections_v().remove(i as int));
                    assert forall|x: u128|
                        pre.has_connection(x) && x != id implies store.has_connection(x) by {
                        let w = choose|w: int|
                            0 <= w < pre.connections@.len() && (
                            #[trigger] pre.connections@[w]).id == x;
                        if w < i as int {
                            assert(store.connections@[w].id == x);
                        } else {
                            assert(store.connections@[w - 1].id == x);
                        }
                    }
                    assert forall|x: u128| store.has_connection(x) implies x != id by {
                        let w = choose|w: int|
                            0 <= w < store.connections@.len() && (
                            #[trigger] store.connections@[w]).id == x;
                        if w < i as int {
                            assert(pre.connections@[w].id == x);
                        } else {
                            assert(pre.connections@[w + 1].id == x);
                        }
                    }
                    Store::lemma_users_grow(pre, *store);
                    assert forall|a: int, b: int|
                        0 <= a < b < store.connections@.len() implies (
                        #[trigger] store.connections@[a]).id != (
                        #[trigger] store.connections@[b]).id by {
                        let pa = if a < i as int {
                            a
                        } else {
                            a + 1
                        };
                        let pb = if b < i as int {
                            b
                        } else {
                            b + 1
                        };
                        assert(store.connections@[a].id == pre.connections@[pa].id);
                        assert(store.connections@[b].id == pre.connections@[pb].id);
                    }
                    assert forall|j: int|
                        0 <= j < store.connections@.len() implies store.has_user(
                        (#[trigger] store.connections@[j]).user_id,
                    ) by {
                        let pj = if j < i as int {
                            j
                        } else {
                            j + 1
                        };
                        assert(store.connections@[j] == pre.connections@[pj]);
                        assert(pre.has_user(pre.connections@[pj].user_id));
                    }
                    assert forall|j: int|
                        0 <= j < store.sessions@.len() implies store.has_connection(
                        (#[trigger] store.sessions@[j]).connection_id,
                    ) by {
                        assert(pre.has_connection(pre.sessions@[j].connection_id));
                        assert(pre.sessions@[j].connection_id != id);
                    }
                    assert(store.wf());
                }
                Ok(true)
            },
        }
    }
}

impl Session {
    /// Field-by-field copy of this row.
    pub fn duplicate(&self) -> (r: Session)
        ensures
            r@ == self@,
    {
        Session {
            id: self.id,
            user_id: self.user_id,
            connection_id: self.connection_id,
            status: self.status,
            created_at: self.created_at,
            last_activity: self.last_activity,
        }
    }

    /// Insert a session row in the `Active` state under a caller-chosen id:
    /// the store's insert, with its foreign-key and primary-key
    /// constraints. Succeeds exactly when the user and the connection exist
    /// and the id is unused.
    pub fn create_with_id(
        store: &mut Store,
        id: u128,
        user_id: u128,
        connection_id: u128,
    ) -> (r: Result<Session, HiveError>)
        requires
            old(store).wf(),
        ensures
            final(store).wf(),
            status_monotone(*old(store), *final(store)),
            final(store).users@ == old(store).users@,
            final(store).api_keys@ == old(store).api_keys@,
            final(store).connections@ == old(store).connections@,
            final(store).scrollback@ == old(store).scrollback@,
            r is Ok <==> (old(store).has_user(user_id) && old(store).has_connection(
                connection_id,
            ) && !old(store).has_session(id)),
            match r {
                Ok(s) => {
                    &&& s.id == id
                    &&& old(store).has_user(user_id)
                    &&& old(store).has_connection(connection_id)
                    &&& !old(store).has_session(s.id)
                    &&& s@.user_id == user_id
                    &&& s@.connection_id == connection_id
                    &&& s@.status is Active
                    &&& s@.created_at == old(store).clock
                    &&& s@.last_activity == old(store).clock
                    &&& final(store).sessions_v() == old(store).sessions_v().push(s@)
                    &&& final(store).sessions@ == old(store).sessions@.push(s)
                    &&& final(store).has_session(s.id)
                },
                Err(e) => e is Database && *final(store) == *old(store),
            },
    {
        let uidx = match find_user_index_by_id(store, user_id) {
            Some(i) => i,
            None => {
                return Err(HiveError::Database("foreign key: sessions.user_id".to_owned()));
            },
        };
        let cidx = match find_connection_index_by_id(store, connection_id) {
            Some(i) => i,
            None => {
                return Err(
                    HiveError::Database("foreign key: sessions.connection_id".to_owned()),
                );
            },
        };
        if find_session_index_by_id(store, id).is_some() {
            return Err(HiveError::Database("unique constraint: sessions.id".to_owned()));
        }
        let ghost pre = *store;
        proof {
            assert(pre.users@[uidx as int].id == user_id);
            assert(pre.has_user(user_id));
            assert(pre.connections@[cidx as int].id == connection_id);
            assert(pre.has_connection(connection_id));
        }
        let row = Session {
            id,
            user_id,
            connection_id,
            status: SessionStatus::Active,
            created_at: store.clock,
            last_activity: store.clock,
        };
        let result = row.duplicate();
        store.sessions.push(row);
        store.tick();
        proof {
            assert(store.sessions@ =~= pre.sessions@.push(result));
            assert(store.sessions@[pre.sessions@.len() as int].id == result.id);
            Store::lemma_sessions_grow(pre, *store);
            Store::lemma_users_grow(pre, *store);
            Store::lemma_connections_grow(pre, *store);
            assert(store.sessions_v() =~= pre.sessions_v().push(result@));
            assert forall|x: u128| pre.session_closed(x) implies store.session_closed(x) by {
                let w = choose|w: int|
                    0 <= w < pre.sessions@.len() && (#[trigger] pre.sessions@[w]).id == x
                        && pre.sessions@[w].status is Closed;
                assert(store.sessions@[w].id == x && store.sessions@[w].status is Closed);
            }
            assert forall|j: int| 0 <= j < store.sessions@.len() implies store.has_user(
                (#[trigger] store.sessions@[j]).user_id,
            ) && store.has_connection(store.sessions@[j].connection_id) by {
                if j < pre.sessions@.len() {
                    assert(pre.has_user(pre.sessions@[j].user_id));
                    assert(pre.has_connection(pre.sessions@[j].connection_id));
                } else {
                    assert(pre.has_user(user_id));
                    assert(pre.has_connection(connection_id));
                }
            }
            assert forall|j: int| 0 <= j < store.scrollback@.len() implies store.has_session(
                (#[trigger] store.scrollback@[j]).session_id,
            ) by {
                assert(pre.has_session(pre.scrollback@[j].session_id));
            }
            assert(store.wf());
        }
        Ok(result)
    }

    /// Insert a new session row in the `Active` state under a freshly drawn
    /// id. Fails as the store's foreign-key constraints do when the user or
    /// the connection does not exist, and as its primary-key constraint
    /// does if the drawn id collides; with no session rows at all no
    /// collision is possible.
    pub fn create(store: &mut Store, user_id: u128, connection_id: u128) -> (r: Result<
        Session,
        HiveError,
    >)
        requires
            old(store).wf(),
        ensures
            final(store).wf(),
            status_monotone(*old(store), *final(store)),
            final(store).users@ == old(store).users@,
            final(store).api_keys@ == old(store).api_keys@,
            final(store).connections@ == old(store).connections@,
            final(store).scrollback@ == old(store).scrollback@,
            match r {
                Ok(s) => {
                    &&& old(store).has_user(user_id)
                    &&& old(store).has_connection(connection_id)
                    &&& !old(store).has_session(s.id)
                    &&& s@.user_id == user_id
                    &&& s@.connection_id == connection_id
                    &&& s@.status is Active
                    &&& s@.created_at == old(store).clock
                    &&& s@.last_activity == old(store).clock
                    &&& final(store).sessions_v() == old(store).sessions_v().push(s@)
                    &&& final(store).sessions@ == old(store).sessions@.push(s)
                    &&& final(store).has_session(s.id)
                },
                Err(e) => e is Database && *final(store) == *old(store),
            },
            !old(store).has_user(user_id) ==> r is Err,
            !old(store).has_connection(connection_id) ==> r is Err,
            old(store).sessions@.len() == 0 && old(store).has_user(user_id) && old(
                store,
            ).has_connection(connection_id) ==> r is Ok,
    {
        let id = new_uuid();
        Self::create_with_id(store, id, user_id, connection_id)
    }

    /// Look up a session by id.
    pub fn find_by_id(store: &Store, id: u128) -> (r: Result<Option<Session>, HiveError>)
        requires
            store.wf(),
        ensures
            match r {
                Ok(Some(s)) => exists|i: int|
                    0 <= i < store.sessions@.len() && (#[trigger] store.sessions@[i])@ == s@
                        && s@.id == id,
                Ok(None) => !store.has_session(id),
                Err(_) => false,
            },
    {
        match find_session_index_by_id(store, id) {
            Some(i) => Ok(Some(store.sessions[i].duplicate())),
            None => Ok(None),
        }
    }

    /// Sessions owned by `user_id`, the most recently active first.
    pub fn list_for_user(store: &Store, user_id: u128) -> (r: Result<Vec<Session>, HiveError>)
        requires
            store.wf(),
        ensures
            match r {
                Ok(ss) => {
                    &&& ss@.to_multiset() == store.sessions@.filter(
                        row_owned_by(user_id),
                    ).to_multiset()
                    &&& sorted_by_activity_desc(ss@)
                },
                Err(_) => false,
            },
    {
        let mut ss: Vec<Session> = Vec::new();
        let n = store.sessions.len();
        let mut i: usize = 0;
        proof {
            broadcast use vstd::seq_lib::group_to_multiset_ensures;

            assert(store.sessions@.take(0).filter(row_owned_by(user_id)) =~= ss@);
        }
        while i < n
            invariant
                store.wf(),
                n == store.sessions@.len(),
                i <= n,
                ss@.to_multiset() == store.sessions@.take(i as int).filter(
                    row_owned_by(user_id),
                ).to_multiset(),
                sorted_by_activity_desc(ss@),
            decreases n - i,
        {
            proof {
                lemma_filter_take_step(store.sessions@, row_owned_by(user_id), i as int);
            }
            if store.sessions[i].user_id == user_id {
                let row = store.sessions[i].duplicate();
                proof {
                    broadcast use vstd::seq_lib::group_to_multiset_ensures;

                    assert(row == store.sessions@[i as int]);
                }
                insert_by_activity(&mut ss, row);
            }
            i = i + 1;
        }
        proof {
            assert(store.sessions@.take(n as int) =~= store.sessions@);
        }
        Ok(ss)
    }

    /// Active sessions owned by `user_id`, the most recently active first.
    pub fn list_active_for_user(store: &Store, user_id: u128) -> (r: Result<
        Vec<Session>,
        HiveError,
    >)
        requires
            store.wf(),
        ensures
            match r {
                Ok(ss) => {
                    &&& ss@.to_multiset() == store.sessions@.filter(
                        active_row_owned_by(user_id),
                    ).to_multiset()
                    &&& sorted_by_activity_desc(ss@)
                },
                Err(_) => false,
            },
    {
        let mut ss: Vec<Session> = Vec::new();
        let n = store.sessions.len();
        let mut i: usize = 0;
        proof {
            broadcast use vstd::seq_lib::group_to_multiset_ensures;

            assert(store.sessions@.take(0).filter(active_row_owned_by(user_id)) =~= ss@);
        }
        while i < n
            invariant
                store.wf(),
                n == store.sessions@.len(),
                i <= n,
                ss@.to_multiset() == store.sessions@.take(i as int).filter(
                    active_row_owned_by(user_id),
                ).to_multiset(),
                sorted_by_activity_desc(ss@),
            decreases n - i,
        {
            proof {
                lemma_filter_take_step(store.sessions@, active_row_owned_by(user_id), i as int);
            }
            let keep = store.sessions[i].user_id == user_id && matches!(
                store.sessions[i].status,
                SessionStatus::Active
            );
            if keep {
                let row = store.sessions[i].duplicate();
                proof {
                    broadcast use vstd::seq_lib::group_to_multiset_ensures;

                    assert(row == store.sessions@[i as int]);
                }
                insert_by_activity(&mut ss, row);
            }
            i = i + 1;
        }
        proof {
            assert(store.sessions@.take(n as int) =~= store.sessions@);
        }
        Ok(ss)
    }

    /// Set the status of the session with the given id; reports whether a
    /// row changed. A closed session cannot be made active again: such a
    /// request changes nothing and reports false.
    pub fn update_status(store: &mut Store, id: u128, status: SessionStatus) -> (r: Result<
        bool,
        HiveError,
    >)
        requires
            old(store).wf(),
        ensures
            final(store).wf(),
            status_monotone(*old(store), *final(store)),
            final(store).users@ == old(store).users@,
            final(store).api_keys@ == old(store).api_keys@,
            final(store).connections@ == old(store).connections@,
            final(store).scrollback@ == old(store).scrollback@,
            final(store).clock == old(store).clock,
            final(store).sessions@.len() == old(store).sessions@.len(),
            forall|j: int|
                0 <= j < final(store).sessions@.len() ==> (#[trigger] final(store).sessions@[j]).id
                    == old(store).sessions@[j].id,
            match r {
                Ok(b) => {
                    &&& (!old(store).has_session(id) ==> b == false && *final(store)
                        == *old(store))
                    &&& (old(store).has_session(id) ==> exists|i: int|
                        {
                            &&& 0 <= i < old(store).sessions@.len()
                            &&& (#[trigger] old(store).sessions@[i]).id == id
                            &&& if old(store).sessions@[i].status is Closed && status is Active {
                                b == false && *final(store) == *old(store)
                            } else {
                                b == true && final(store).sessions_v()
                                    == old(store).sessions_v().update(
                                    i,
                                    SessionV { status, ..old(store).sessions@[i]@ },
                                )
                            }
                        })
                    &&& (status is Closed && old(store).has_session(id)
                        ==> final(store).session_closed(id))
                },
                Err(_) => false,
            },
    {
        match find_session_index_by_id(store, id) {
            None => Ok(false),
            Some(i) => {
                let refuse = matches!(store.sessions[i].status, SessionStatus::Closed)
                    && matches!(status, SessionStatus::Active);
                if refuse {
                    return Ok(false);
                }
                let ghost pre = *store;
                let mut row = store.sessions.remove(i);
                row.status = status;
                store.sessions.insert(i, row);
                proof {
                    assert(store.sessions@.len() == pre.sessions@.len());
                    assert forall|j: int| 0 <= j < store.sessions@.len() && j != i implies (
                    #[trigger] store.sessions@[j]) == pre.sessions@[j] by {}
                    assert(store.sessions_v() =~= pre.sessions_v().update(
                        i as int,
                        SessionV { status, ..pre.sessions@[i as int]@ },
                    ));
                    Store::lemma_sessions_grow(pre, *store);
                    Store::lemma_users_grow(pre, *store);
                    Store::lemma_connections_grow(pre, *store);
                    assert forall|x: u128| pre.session_closed(x) implies store.session_closed(
                        x,
                    ) by {
                        let w = choose|w: int|
                            0 <= w < pre.sessions@.len() && (#[trigger] pre.sessions@[w]).id == x
                                && pre.sessions@[w].status is Closed;
                        assert(store.sessions@[w].id == x && store.sessions@[w].status
                            is Closed);
                    }
                    if status is Closed {
                        assert(store.sessions@[i as int].id == id && store.sessions@[i as int].status
                            is Closed);
                    }
                    assert forall|j: int| 0 <= j < store.sessions@.len() implies store.has_user(
                        (#[trigger] store.sessions@[j]).user_id,
                    ) && store.has_connection(store.sessions@[j].connection_id) by {
                        assert(pre.has_user(pre.sessions@[j].user_id));
                        assert(pre.has_connection(pre.sessions@[j].connection_id));
                    }
                    assert forall|j: int|
                        0 <= j < store.scrollback@.len() implies store.has_session(
                        (#[trigger] store.scrollback@[j]).session_id,
                    ) by {
                        assert(pre.has_session(pre.scrollback@[j].session_id));
                    }
                    assert(store.wf());
                }
                Ok(true)
            },
        }
    }

    /// Refresh the last-activity time of the session with the given id to
    /// the store's clock; reports whether a row changed.
    pub fn update_activity(store: &mut Store, id: u128) -> (r: Result<bool, HiveError>)
        requires
            old(store).wf(),
        ensures
            final(store).wf(),
            status_monotone(*old(store), *final(store)),
            final(store).users@ == old(store).users@,
            final(store).api_keys@ == old(store).api_keys@,
            final(store).connections@ == old(store).connections@,
            final(store).scrollback@ == old(store).scrollback@,
            final(store).sessions@.len() == old(store).sessions@.len(),
            forall|j: int|
                0 <= j < final(store).sessions@.len() ==> (#[trigger] final(store).sessions@[j]).id
                    == old(store).sessions@[j].id,
            match r {
                Ok(b) => {
                    &&& b == old(store).has_session(id)
                    &&& (!b ==> *final(store) == *old(store))
                    &&& (b ==> exists|i: int|
                        {
                            &&& 0 <= i < old(store).sessions@.len()
                            &&& (#[trigger] old(store).sessions@[i]).id == id
                            &&& final(store).sessions_v() == old(store).sessions_v().update(
                                i,
                                SessionV {
                                    last_activity: old(store).clock,
                                    ..old(store).sessions@[i]@
                                },
                            )
                        })
                },
                Err(_) => false,
            },
    {
        match find_session_index_by_id(store, id) {
            None => Ok(false),
            Some(i) => {
                let ghost pre = *store;
                let mut row = store.sessions.remove(i);
                row.last_activity = store.clock;
                store.sessions.insert(i, row);
                store.tick();
                proof {
                    assert(store.sessions@.len() == pre.sessions@.len());
                    assert forall|j: int| 0 <= j < store.sessions@.len() && j != i implies (
                    #[trigger] store.sessions@[j]) == pre.sessions@[j] by {}
                    assert(store.sessions_v() =~= pre.sessions_v().update(
                        i as int,
                        SessionV { last_activity: pre.clock, ..pre.sessions@[i as int]@ },
                    ));
                    Store::lemma_sessions_grow(pre, *store);
                    Store::lemma_users_grow(pre, *store);
                    Store::lemma_connections_grow(pre, *store);
                    assert forall|x: u128| pre.session_closed(x) implies store.session_closed(
                        x,
                    ) by {
                        let w = choose|w: int|
                            0 <= w < pre.sessions@.len() && (#[trigger] pre.sessions@[w]).id == x
                                && pre.sessions@[w].status is Closed;
                        assert(store.sessions@[w].id == x && store.sessions@[w].status
                            is Closed);
                    }
                    assert forall|j: int| 0 <= j < store.sessions@.len() implies store.has_user(
                        (#[trigger] store.sessions@[j]).user_id,
                    ) && store.has_connection(store.sessions@[j].connection_id) by {
                        assert(pre.has_user(pre.sessions@[j].user_id));
                        assert(pre.has_connection(pre.sessions@[j].connection_id));
                    }
                    assert forall|j: int|
                        0 <= j < store.scrollback@.len() implies store.has_session(
                        (#[trigger] store.scrollback@[j]).session_id,
                    ) by {
                        assert(pre.has_session(pre.scrollback@[j].session_id));
                    }
                    assert(store.wf());
                }
                Ok(true)
            },
        }
    }

    /// Mark the session with the given id closed; reports whether a row
    /// changed. Closing is idempotent: a closed session stays closed.
    pub fn close(store: &mut Store, id: u128) -> (r: Result<bool, HiveError>)
        requires
            old(store).wf(),
        ensures
            final(store).wf(),
            status_monotone(*old(store), *final(store)),
            final(store).users@ == old(store).users@,
            final(store).api_keys@ == old(store).api_keys@,
            final(store).connections@ == old(store).connections@,
            final(store).scrollback@ == old(store).scrollback@,
            final(store).sessions@.len() == old(store).sessions@.len(),
            forall|j: int|
                0 <= j < final(store).sessions@.len() ==> (#[trigger] final(store).sessions@[j]).id
                    == old(store).sessions@[j].id,
            match r {
                Ok(b) => b == old(store).has_session(id),
                Err(_) => false,
            },
            old(store).has_session(id) ==> final(store).session_closed(id),
            !old(store).has_session(id) ==> *final(store) == *old(store),
            final(store).has_session(id) == old(store).has_session(id),
    {
        let r = Self::update_status(store, id, SessionStatus::Closed);
        proof {
            Store::lemma_sessions_grow(*old(store), *store);
            Store::lemma_sessions_grow(*store, *old(store));
        }
        r
    }
}

impl Store {
    /// The scrollback log index of a session is the position of any entry
    /// carrying its id.
    pub proof fn lemma_log_index_unique(self, session_id: u128, i: int)
        requires
            forall|a: int, b: int|
                0 <= a < b < self.scrollback@.len() ==> (
                #[trigger] self.scrollback@[a]).session_id != (
                #[trigger] self.scrollback@[b]).session_id,
            0 <= i < self.scrollback@.len(),
            self.scrollback@[i].session_id == session_id,
        ensures
            self.has_log(session_id),
            self.log_index(session_id) == i,
    {
        assert(self.has_log(session_id));
        let c = self.log_index(session_id);
        if c < i {
            assert(self.scrollback@[c].session_id != self.scrollback@[i].session_id);
        } else if c > i {
            assert(self.scrollback@[i].session_id != self.scrollback@[c].session_id);
        }
    }
}

/// A store whose row collections are unchanged and whose scrollback column
/// satisfies its own invariant is well-formed.
proof fn lemma_wf_rows_unchanged(pre: Store, post: Store)
    requires
        pre.wf(),
        post.users@ == pre.users@,
        post.api_keys@ == pre.api_keys@,
        post.connections@ == pre.connections@,
        post.sessions@ == pre.sessions@,
        post.scrollback_wf(),
    ensures
        post.wf(),
{
    Store::lemma_users_grow(pre, post);
    Store::lemma_connections_grow(pre, post);
    assert forall|i: int| 0 <= i < post.api_keys@.len() implies post.has_user(
        (#[trigger] post.api_keys@[i]).user_id,
    ) by {
        assert(pre.has_user(pre.api_keys@[i].user_id));
    }
    assert forall|i: int| 0 <= i < post.connections@.len() implies post.has_user(
        (#[trigger] post.connections@[i]).user_id,
    ) by {
        assert(pre.has_user(pre.connections@[i].user_id));
    }
    assert forall|i: int| 0 <= i < post.sessions@.len() implies post.has_user(
        (#[trigger] post.sessions@[i]).user_id,
    ) && post.has_connection(post.sessions@[i].connection_id) by {
        assert(pre.has_user(pre.sessions@[i].user_id));
        assert(pre.has_connection(pre.sessions@[i].connection_id));
    }
}

/// Position of the scrollback log of a session, if any.
pub(crate) fn find_log_index(store: &Store, session_id: u128) -> (r: Option<usize>)
    ensures
        match r {
            Some(i) => i < store.scrollback@.len() && store.scrollback@[i as int].session_id
                == session_id,
            None => !store.has_log(session_id),
        },
{
    let n = store.scrollback.len();
    let mut i: usize = 0;
    while i < n
        invariant
            n == store.scrollback@.len(),
            i <= n,
            forall|j: int| 0 <= j < i ==> (#[trigger] store.scrollback@[j]).session_id
                != session_id,
        decreases n - i,
    {
        if store.scrollback[i].session_id == session_id {
            return Some(i);
        }
        i = i + 1;
    }
    None
}

impl ScrollbackChunk {
    /// Append `data` to the session's scrollback, extending the last chunk
    /// first and then adding chunks of up to `CHUNK_MAX` bytes. Appending
    /// nothing changes nothing; otherwise the write fails as the store's
    /// foreign-key constraint does when the session does not exist.
    pub fn append(store: &mut Store, session_id: u128, data: &[u8]) -> (r: Result<(), HiveError>)
        requires
            old(store).wf(),
            old(store).log_bytes(session_id).len() + data@.len() <= usize::MAX,
        ensures
            final(store).wf(),
            status_monotone(*old(store), *final(store)),
            final(store).users@ == old(store).users@,
            final(store).api_keys@ == old(store).api_keys@,
            final(store).connections@ == old(store).connections@,
            final(store).sessions@ == old(store).sessions@,
            final(store).clock == old(store).clock,
            data@.len() == 0 ==> r is Ok && *final(store) == *old(store),
            r is Ok <==> (data@.len() == 0 || old(store).has_session(session_id)),
            r is Err ==> *final(store) == *old(store) && (r matches Err(e) ==> e is Database),
            r is Ok ==> final(store).log_bytes(session_id) == old(store).log_bytes(session_id)
                + data@,
            forall|x: u128|
                x != session_id ==> final(store).log_bytes(x) == old(store).log_bytes(x),
    {
        if data.len() == 0 {
            proof {
                assert(old(store).log_bytes(session_id) + data@ =~= old(store).log_bytes(
                    session_id,
                ));
            }
            return Ok(());
        }
        if find_session_index_by_id(store, session_id).is_none() {
            return Err(
                HiveError::Database("foreign key: scrollback_chunks.session_id".to_owned()),
            );
        }
        let ghost pre = *store;
        match find_log_index(store, session_id) {
            Some(i) => {
                proof {
                    pre.lemma_log_index_unique(session_id, i as int);
                }
                let mut log = store.scrollback.remove(i);
                log.append(data);
                store.scrollback.insert(i, log);
                proof {
                    assert(store.scrollback@.len() == pre.scrollback@.len());
                    assert forall|j: int| 0 <= j < store.scrollback@.len() && j != i implies (
                    #[trigger] store.scrollback@[j]) == pre.scrollback@[j] by {}
                    assert(store.scrollback@[i as int].session_id == session_id);
                    assert forall|a: int, b: int|
                        0 <= a < b < store.scrollback@.len() implies (
                        #[trigger] store.scrollback@[a]).session_id != (
                        #[trigger] store.scrollback@[b]).session_id by {
                        assert(store.scrollback@[a].session_id
                            == pre.scrollback@[a].session_id);
                        assert(store.scrollback@[b].session_id
                            == pre.scrollback@[b].session_id);
                    }
                    store.lemma_log_index_unique(session_id, i as int);
                    assert(store.log_bytes(session_id) == pre.log_bytes(session_id) + data@);
                    lemma_other_logs_unchanged(pre, *store, session_id);
                    assert forall|j: int|
                        0 <= j < store.scrollback@.len() implies store.has_session(
                        (#[trigger] store.scrollback@[j]).session_id,
                    ) by {
                        assert(pre.has_session(pre.scrollback@[j].session_id));
                    }
                    assert forall|j: int| 0 <= j < store.scrollback@.len() implies (
                    #[trigger] store.scrollback@[j]).wf() && store.scrollback@[j].chunks@.len()
                        > 0 && store.scrollback@[j].bytes().len() <= usize::MAX by {
                        if j == i as int {
                            store.scrollback@[j].lemma_nonempty_bytes_nonempty_chunks();
                        } else {
                            assert(pre.scrollback@[j].wf());
                        }
                    }
                    assert(store.scrollback_wf());
                    lemma_wf_rows_unchanged(pre, *store);
                }
                Ok(())
            },
            None => {
                let mut log = ChunkLog::new(session_id);
                log.append(data);
                store.scrollback.push(log);
                proof {
                    let n = pre.scrollback@.len() as int;
                    assert forall|j: int| 0 <= j < n implies (#[trigger] store.scrollback@[j])
                        == pre.scrollback@[j] by {}
                    assert(store.scrollback@[n].session_id == session_id);
                    assert forall|a: int, b: int|
                        0 <= a < b < store.scrollback@.len() implies (
                        #[trigger] store.scrollback@[a]).session_id != (
                        #[trigger] store.scrollback@[b]).session_id by {
                        if b == n {
                            if pre.scrollback@[a].session_id == session_id {
                                assert(pre.has_log(session_id));
                            }
                        } else {
                            assert(store.scrollback@[a].session_id
                                == pre.scrollback@[a].session_id);
                            assert(store.scrollback@[b].session_id
                                == pre.scrollback@[b].session_id);
                        }
                    }
                    store.lemma_log_index_unique(session_id, n);
                    assert(store.log_bytes(session_id) =~= pre.log_bytes(session_id) + data@);
                    lemma_other_logs_unchanged(pre, *store, session_id);
                    assert forall|j: int|
                        0 <= j < store.scrollback@.len() implies store.has_session(
                        (#[trigger] store.scrollback@[j]).session_id,
                    ) by {
                        if j < n {
                            assert(pre.has_session(pre.scrollback@[j].session_id));
                        } else {
                            assert(pre.has_session(session_id));
                        }
                    }
                    assert forall|j: int| 0 <= j < store.scrollback@.len() implies (
                    #[trigger] store.scrollback@[j]).wf() && store.scrollback@[j].chunks@.len()
                        > 0 && store.scrollback@[j].bytes().len() <= usize::MAX by {
                        if j == n {
                            store.scrollback@[j].lemma_nonempty_bytes_nonempty_chunks();
                        } else {
                            assert(pre.scrollback@[j].wf());
                        }
                    }
                    assert(store.scrollback_wf());
                    lemma_wf_rows_unchanged(pre, *store);
                }
                Ok(())
            },
        }
    }

    /// All bytes recorded for the session, in order; empty when nothing is
    /// recorded.
    pub fn get_all(store: &Store, session_id: u128) -> (r: Result<Vec<u8>, HiveError>)
        requires
            store.wf(),
        ensures
            match r {
                Ok(v) => v@ == store.log_bytes(session_id),
                Err(_) => false,
            },
    {
        match find_log_index(store, session_id) {
            None => Ok(Vec::new()),
            Some(i) => {
                proof {
                    store.lemma_log_index_unique(session_id, i as int);
                }
                Ok(store.scrollback[i].get_all())
            },
        }
    }

    /// The recorded bytes from `offset` on; empty when `offset` is at or
    /// past the end.
    pub fn get_from_offset(store: &Store, session_id: u128, offset: usize) -> (r: Result<
        Vec<u8>,
        HiveError,
    >)
        requires
            store.wf(),
        ensures
            match r {
                Ok(v) => {
                    &&& offset <= store.log_bytes(session_id).len() ==> v@ == store.log_bytes(
                        session_id,
                    ).skip(offset as int)
                    &&& offset > store.log_bytes(session_id).len() ==> v@ == Seq::<u8>::empty()
                },
                Err(_) => false,
            },
    {
        match find_log_index(store, session_id) {
            None => Ok(Vec::new()),
            Some(i) => {
                proof {
                    store.lemma_log_index_unique(session_id, i as int);
                }
                Ok(store.scrollback[i].get_from_offset(offset))
            },
        }
    }

    /// Total number of bytes recorded for the session.
    pub fn total_size(store: &Store, session_id: u128) -> (r: Result<usize, HiveError>)
        requires
            store.wf(),
        ensures
            match r {
                Ok(n) => n == store.log_bytes(session_id).len(),
                Err(_) => false,
            },
    {
        match find_log_index(store, session_id) {
            None => Ok(0),
            Some(i) => {
                proof {
                    store.lemma_log_index_unique(session_id, i as int);
                }
                Ok(store.scrollback[i].total_size())
            },
        }
    }

    /// Remove every chunk recorded for the session; reports whether any
    /// chunk existed.
    #[verifier::rlimit(60)]
    pub fn delete_for_session(store: &mut Store, session_id: u128) -> (r: Result<bool, HiveError>)
        requires
            old(store).wf(),
        ensures
            final(store).wf(),
            status_monotone(*old(store), *final(store)),
            final(store).users@ == old(store).users@,
            final(store).api_keys@ == old(store).api_keys@,
            final(store).connections@ == old(store).connections@,
            final(store).sessions@ == old(store).sessions@,
            final(store).clock == old(store).clock,
            final(store).log_bytes(session_id) == Seq::<u8>::empty(),
            !final(store).has_log(session_id),
            forall|x: u128|
                x != session_id ==> final(store).log_bytes(x) == old(store).log_bytes(x),
            match r {
                Ok(b) => b == old(store).has_log(session_id),
                Err(_) => false,
            },
            !old(store).has_log(session_id) ==> *final(store) == *old(store),
    {
        match find_log_index(store, session_id) {
            None => Ok(false),
            Some(i) => {
                let ghost pre = *store;
                proof {
                    pre.lemma_log_index_unique(session_id, i as int);
                }
                let _removed = store.scrollback.remove(i);
                proof {
                    assert forall|a: int, b: int|
                        0 <= a < b < store.scrollback@.len() implies (
                        #[trigger] store.scrollback@[a]).session_id != (
                        #[trigger] store.scrollback@[b]).session_id by {
                        let pa = if a < i as int {
                            a
                        } else {
                            a + 1
                        };
                        let pb = if b < i as int {
                            b
                        } else {
                            b + 1
                        };
                        assert(store.scrollback@[a].session_id
                            == pre.scrollback@[pa].session_id);
                        assert(store.scrollback@[b].session_id
                            == pre.scrollback@[pb].session_id);
                    }
                    assert forall|x: u128|
                        pre.has_log(x) && x != session_id implies store.has_log(x) by {
                        let w = choose|w: int|
                            0 <= w < pre.scrollback@.len() && (
                            #[trigger] pre.scrollback@[w]).session_id == x;
                        if w < i as int {
                            assert(store.scrollback@[w].session_id == x);
                        } else {
                            assert(store.scrollback@[w - 1].session_id == x);
                        }
                    }
                    assert forall|x: u128| store.has_log(x) implies x != session_id
                        && pre.has_log(x) by {
                        let w = choose|w: int|
                            0 <= w < store.scrollback@.len() && (
                            #[trigger] store.scrollback@[w]).session_id == x;
                        if w < i as int {
                            assert(pre.scrollback@[w].session_id == x);
                        } else {
                            assert(pre.scrollback@[w + 1].session_id == x);
                        }
                    }
                    assert forall|x: u128|
                        x != session_id implies store.log_bytes(x) == pre.log_bytes(x) by {
                        if pre.has_log(x) {
                            let w = choose|w: int|
                                0 <= w < pre.scrollback@.len() && (
                                #[trigger] pre.scrollback@[w]).session_id == x;
                            pre.lemma_log_index_unique(x, w);
                            if w < i as int {
                                store.lemma_log_index_unique(x, w);
                            } else {
                                store.lemma_log_index_unique(x, w - 1);
                            }
                        }
                    }
                    assert forall|j: int|
                        0 <= j < store.scrollback@.len() implies store.has_session(
                        (#[trigger] store.scrollback@[j]).session_id,
                    ) by {
                        if j < i as int {
                            assert(pre.has_session(pre.scrollback@[j].session_id));
                        } else {
                            assert(pre.has_session(pre.scrollback@[j + 1].session_id));
                        }
                    }
                    assert forall|j: int| 0 <= j < store.scrollback@.len() implies (
                    #[trigger] store.scrollback@[j]).wf() && store.scrollback@[j].chunks@.len()
                        > 0 && store.scrollback@[j].bytes().len() <= usize::MAX by {
                        let pj = if j < i as int {
                            j
                        } else {
                            j + 1
                        };
                        assert(store.scrollback@[j] == pre.scrollback@[pj]);
                        assert(pre.scrollback@[pj].wf());
                    }
                    assert(store.scrollback_wf());
                    lemma_wf_rows_unchanged(pre, *store);
                }
                Ok(true)
            },
        }
    }
}

/// After one session's log is rewritten in place, every other session still
/// records the same bytes.
proof fn lemma_other_logs_unchanged(pre: Store, post: Store, session_id: u128)
    requires
        pre.wf(),
        pre.scrollback@.len() <= post.scrollback@.len(),
        post.scrollback@.len() <= pre.scrollback@.len() + 1,
        forall|j: int|
            0 <= j < pre.scrollback@.len() && pre.scrollback@[j].session_id != session_id
                ==> (#[trigger] post.scrollback@[j]) == pre.scrollback@[j],
        forall|j: int|
            0 <= j < post.scrollback@.len() && j < pre.scrollback@.len() ==> (
            #[trigger] post.scrollback@[j]).session_id == pre.scrollback@[j].session_id,
        post.scrollback@.len() > pre.scrollback@.len() ==> post.scrollback@.last().session_id
            == session_id,
    ensures
        forall|x: u128| x != session_id ==> post.log_bytes(x) == pre.log_bytes(x),
{
    assert forall|x: u128| x != session_id implies post.log_bytes(x) == pre.log_bytes(x) by {
        if pre.has_log(x) {
            let w = choose|w: int|
                0 <= w < pre.scrollback@.len() && (#[trigger] pre.scrollback@[w]).session_id == x;
            pre.lemma_log_index_unique(x, w);
            assert(post.scrollback@[w] == pre.scrollback@[w]);
            assert(post.has_log(x));
            let c = post.log_index(x);
            assert(0 <= c < post.scrollback@.len() && post.scrollback@[c].session_id == x);
            if c != w {
                if c < pre.scrollback@.len() {
                    assert(pre.scrollback@[c].session_id == x);
                    pre.lemma_log_index_unique(x, c);
                } else {
                    assert(post.scrollback@[c].session_id == session_id);
                }
            }
        } else {
            if post.has_log(x) {
                let w = choose|w: int|
                    0 <= w < post.scrollback@.len() && (#[trigger] post.scrollback@[w]).session_id
                        == x;
                if w < pre.scrollback@.len() {
                    assert(pre.scrollback@[w].session_id == x);
                    assert(pre.has_log(x));
                } else {
                    assert(post.scrollback@[w].session_id == session_id);
                }
                assert(false);
            }
        }
    }
}

} // verus!
