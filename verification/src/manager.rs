//! Live session registry and lifecycle.
//!
//! The manager owns the store and the process-wide registry of active
//! sessions. It is the sole entry point for creating, attaching to and
//! closing sessions, and it enforces ownership on every operation that
//! names a session. The SSH handshake itself happens outside the core:
//! `begin_create_session` authorizes the request and records the session
//! row, the caller performs the handshake, and `complete_create_session`
//! registers the live session or maps the failure to an error.

use crate::hub::{Hub, HubReceiver, Received};
use crate::models::{
    find_connection_index_by_id, find_session_index_by_id, status_monotone, Session,
    SessionStatus, Store,
};
use crate::scrollback::{copy_range, ScrollbackChunk};
use crate::HiveError;
use vstd::prelude::*;

verus! {

/// The state of one session's SSH channel, as the broker sees it.
pub struct Transport {
    /// Byte messages written to the channel, in order.
    pub sent: Vec<Vec<u8>>,
    /// Current terminal width.
    pub cols: u32,
    /// Current terminal height.
    pub rows: u32,
    /// Cleared once the channel is closed; writes then fail.
    pub open: bool,
}

impl Transport {
    /// Abstract values of the sent messages, in order.
    pub open spec fn sent_v(self) -> Seq<Seq<u8>> {
        self.sent@.map_values(|v: Vec<u8>| v@)
    }
}

/// The in-memory binding of a live SSH channel to its broadcast hub.
pub struct ActiveSession {
    pub session_id: u128,
    pub connection_id: u128,
    pub user_id: u128,
    /// The SSH channel state.
    pub channel: Transport,
    /// Fan-out point for the session's output.
    pub hub: Hub,
}

impl ActiveSession {
    /// Write bytes to the SSH channel. Fails once the channel is closed.
    pub fn send(&mut self, data: &[u8]) -> (r: Result<(), HiveError>)
        ensures
            final(self).session_id == old(self).session_id,
            final(self).connection_id == old(self).connection_id,
            final(self).user_id == old(self).user_id,
            final(self).hub == old(self).hub,
            final(self).channel.cols == old(self).channel.cols,
            final(self).channel.rows == old(self).channel.rows,
            final(self).channel.open == old(self).channel.open,
            match r {
                Ok(_) => old(self).channel.open && final(self).channel.sent_v()
                    == old(self).channel.sent_v().push(data@),
                Err(e) => !old(self).channel.open && e is Ssh && *final(self) == *old(self),
            },
    {
        if !self.channel.open {
            return Err(HiveError::Ssh("failed to send data: channel closed".to_owned()));
        }
        let ghost before = self.channel.sent@;
        let msg = copy_range(data, 0, data.len());
        self.channel.sent.push(msg);
        proof {
            assert(data@.subrange(0, data@.len() as int) =~= data@);
            assert(self.channel.sent_v() =~= old(self).channel.sent_v().push(data@));
        }
        Ok(())
    }

    /// Set the terminal dimensions. Any dimensions are accepted, including
    /// the current ones; the call fails only once the channel is closed.
    pub fn resize(&mut self, cols: u32, rows: u32) -> (r: Result<(), HiveError>)
        ensures
            final(self).session_id == old(self).session_id,
            final(self).connection_id == old(self).connection_id,
            final(self).user_id == old(self).user_id,
            final(self).hub == old(self).hub,
            final(self).channel.sent@ == old(self).channel.sent@,
            final(self).channel.open == old(self).channel.open,
            match r {
                Ok(_) => old(self).channel.open && final(self).channel.cols == cols
                    && final(self).channel.rows == rows,
                Err(e) => !old(self).channel.open && e is Ssh && *final(self) == *old(self),
            },
    {
        if !self.channel.open {
            return Err(HiveError::Ssh("failed to resize: channel closed".to_owned()));
        }
        self.channel.cols = cols;
        self.channel.rows = rows;
        Ok(())
    }

    /// A fresh subscription to this session's output, starting at the
    /// current tail.
    pub fn subscribe(&self) -> (r: HubReceiver)
        requires
            self.hub.wf(),
        ensures
            r.valid_for(self.hub),
            r.start == self.hub.history@.len(),
            r.cursor == r.start,
            r.lagged == 0,
            r.delivered@ == Seq::<Seq<u8>>::empty(),
    {
        self.hub.subscribe()
    }

    /// Publish one message of session output into the hub. This is what the
    /// transport's data and extended-data callbacks feed; stdout and stderr
    /// are merged here.
    pub fn deliver_output(&mut self, data: Vec<u8>)
        requires
            old(self).hub.wf(),
            !old(self).hub.closed,
            old(self).hub.history@.len() < usize::MAX,
        ensures
            final(self).session_id == old(self).session_id,
            final(self).connection_id == old(self).connection_id,
            final(self).user_id == old(self).user_id,
            final(self).channel == old(self).channel,
            final(self).hub.wf(),
            !final(self).hub.closed,
            final(self).hub.history@ == old(self).hub.history@.push(data@),
    {
        self.hub.publish(data);
    }

    /// Close the channel and the hub: the transport is gone, subscribers
    /// drain what is buffered and then see the stream end.
    pub fn shut_down(&mut self)
        requires
            old(self).hub.wf(),
        ensures
            final(self).session_id == old(self).session_id,
            final(self).connection_id == old(self).connection_id,
            final(self).user_id == old(self).user_id,
            !final(self).channel.open,
            final(self).hub.wf(),
            final(self).hub.closed,
            final(self).hub.history@ == old(self).hub.history@,
    {
        self.channel.open = false;
        self.hub.close();
    }
}

/// How far the SSH handshake got, as reported by the transport layer.
pub enum SshOutcome {
    /// Connect, authentication, channel, PTY and shell all succeeded.
    Connected,
    /// TCP connect or SSH handshake failed.
    ConnectFailed(String),
    /// The server rejected the password.
    AuthFailed,
    /// Opening the session channel failed.
    ChannelFailed(String),
    /// The PTY request failed.
    PtyFailed(String),
    /// The shell request failed.
    ShellFailed(String),
}

impl SshOutcome {
    /// The error a handshake failure maps to; nothing for success. A
    /// rejected password is an authentication failure; every other failure
    /// is a transport error carrying the reported message.
    pub fn into_error(self) -> (r: Option<HiveError>)
        ensures
            r is None <==> self is Connected,
            r matches Some(e) ==> ((e is Auth <==> self is AuthFailed) && (e is Auth
                || e is Ssh)),
    {
        match self {
            SshOutcome::Connected => None,
            SshOutcome::ConnectFailed(m) => Some(HiveError::Ssh(m)),
            SshOutcome::AuthFailed => Some(
                HiveError::Auth("SSH authentication failed".to_owned()),
            ),
            SshOutcome::ChannelFailed(m) => Some(HiveError::Ssh(m)),
            SshOutcome::PtyFailed(m) => Some(HiveError::Ssh(m)),
            SshOutcome::ShellFailed(m) => Some(HiveError::Ssh(m)),
        }
    }
}

/// What the caller needs to dial the SSH target of a session being created.
pub struct DialPlan {
    /// The freshly created session row's id.
    pub session_id: u128,
    pub host: String,
    pub port: i32,
    pub username: String,
    pub startup_command: Option<String>,
}

/// Process-wide registry of active sessions over the persisted store.
pub struct SessionManager {
    pub store: Store,
    pub registry: Vec<ActiveSession>,
}

impl SessionManager {
    /// An active session with this id is registered.
    pub open spec fn has_active(self, sid: u128) -> bool {
        exists|i: int|
            0 <= i < self.registry@.len() && (#[trigger] self.registry@[i]).session_id == sid
    }

    /// Position of the active session with this id (meaningful when it is
    /// registered; unique under `wf`).
    pub open spec fn active_index(self, sid: u128) -> int {
        choose|i: int|
            0 <= i < self.registry@.len() && (#[trigger] self.registry@[i]).session_id == sid
    }

    /// The registered active session with this id.
    pub open spec fn active_of(self, sid: u128) -> ActiveSession {
        self.registry@[self.active_index(sid)]
    }

    /// The registry holds at most one entry per session, every entry has a
    /// session row and a consistent hub, and the store is well-formed.
    pub open spec fn wf(self) -> bool {
        &&& self.store.wf()
        &&& forall|i: int, j: int|
            0 <= i < j < self.registry@.len() ==> (#[trigger] self.registry@[i]).session_id != (
            #[trigger] self.registry@[j]).session_id
        &&& forall|i: int|
            0 <= i < self.registry@.len() ==> self.store.has_session(
                (#[trigger] self.registry@[i]).session_id,
            )
        &&& forall|i: int| 0 <= i < self.registry@.len() ==> (#[trigger] self.registry@[i]).hub.wf()
    }

    /// The active index of a session is the position of any entry carrying
    /// its id.
    pub proof fn lemma_active_index_unique(self, sid: u128, i: int)
        requires
            forall|a: int, b: int|
                0 <= a < b < self.registry@.len() ==> (#[trigger] self.registry@[a]).session_id
                    != (#[trigger] self.registry@[b]).session_id,
            0 <= i < self.registry@.len(),
            self.registry@[i].session_id == sid,
        ensures
            self.has_active(sid),
            self.active_index(sid) == i,
    {
        assert(self.has_active(sid));
        let c = self.active_index(sid);
        if c < i {
            assert(self.registry@[c].session_id != self.registry@[i].session_id);
        } else if c > i {
            assert(self.registry@[i].session_id != self.registry@[c].session_id);
        }
    }

    /// A manager over the given store, with no live sessions.
    pub fn new(store: Store) -> (m: SessionManager)
        requires
            store.wf(),
        ensures
            m.wf(),
            m.store == store,
            m.registry@.len() == 0,
    {
        SessionManager { store, registry: Vec::new() }
    }

    /// Position of the registered active session with this id, if any.
    pub fn get_session(&self, session_id: u128) -> (r: Option<usize>)
        ensures
            match r {
                Some(i) => i < self.registry@.len() && self.registry@[i as int].session_id
                    == session_id,
                None => !self.has_active(session_id),
            },
    {
        let n = self.registry.len();
        let mut i: usize = 0;
        while i < n
            invariant
                n == self.registry@.len(),
                i <= n,
                forall|j: int| 0 <= j < i ==> (#[trigger] self.registry@[j]).session_id
                    != session_id,
            decreases n - i,
        {
            if self.registry[i].session_id == session_id {
                return Some(i);
            }
            i = i + 1;
        }
        None
    }

    /// Authorize a session creation and record the session row: the
    /// connection must exist and belong to the caller. Returns what the
    /// caller needs to dial the SSH target; the row is created `Active`
    /// before the handshake, so a failed handshake leaves it behind.
    pub fn begin_create_session(&mut self, user_id: u128, connection_id: u128) -> (r: Result<
        DialPlan,
        HiveError,
    >)
        requires
            old(self).wf(),
        ensures
            final(self).wf(),
            status_monotone(old(self).store, final(self).store),
            final(self).registry@ == old(self).registry@,
            final(self).store.users@ == old(self).store.users@,
            final(self).store.api_keys@ == old(self).store.api_keys@,
            final(self).store.connections@ == old(self).store.connections@,
            final(self).store.scrollback@ == old(self).store.scrollback@,
            match r {
                Ok(plan) => {
                    &&& old(self).store.has_connection(connection_id)
                    &&& old(self).store.connection_user(connection_id) == user_id
                    &&& !old(self).store.has_session(plan.session_id)
                    &&& !old(self).has_active(plan.session_id)
                    &&& final(self).store.sessions@ == old(self).store.sessions@.push(
                        (Session {
                            id: plan.session_id,
                            user_id,
                            connection_id,
                            status: SessionStatus::Active,
                            created_at: old(self).store.clock,
                            last_activity: old(self).store.clock,
                        }),
                    )
                    &&& final(self).store.has_session(plan.session_id)
                    &&& plan.host@ == old(self).store.connections@[old(
                        self,
                    ).store.connection_index(connection_id)].host@
                    &&& plan.port == old(self).store.connections@[old(
                        self,
                    ).store.connection_index(connection_id)].port
                    &&& plan.username@ == old(self).store.connections@[old(
                        self,
                    ).store.connection_index(connection_id)].username@
                },
                Err(e) => {
                    &&& *final(self) == *old(self)
                    &&& (e is Session <==> !old(self).store.has_connection(connection_id))
                    &&& (e is Auth <==> old(self).store.has_connection(connection_id) && old(
                        self,
                    ).store.connection_user(connection_id) != user_id)
                    &&& (e is Session || e is Auth || e is Database)
                },
            },
            !old(self).store.has_connection(connection_id) ==> r is Err,
            old(self).store.has_connection(connection_id) && old(self).store.connection_user(
                connection_id,
            ) != user_id ==> r is Err,
            old(self).store.sessions@.len() == 0 && old(self).store.has_connection(connection_id)
                && old(self).store.connection_user(connection_id) == user_id ==> r is Ok,
    {
        let cidx = match find_connection_index_by_id(&self.store, connection_id) {
            None => {
                return Err(HiveError::Session("Connection not found".to_owned()));
            },
            Some(i) => i,
        };
        proof {
            self.store.lemma_connection_index_unique(connection_id, cidx as int);
        }
        if self.store.connections[cidx].user_id != user_id {
            return Err(HiveError::Auth("Not authorized to use this connection".to_owned()));
        }
        let host = self.store.connections[cidx].host.clone();
        let port = self.store.connections[cidx].port;
        let username = self.store.connections[cidx].username.clone();
        let startup_command = match &self.store.connections[cidx].startup_command {
            Some(c) => Some(c.clone()),
            None => None,
        };
        let ghost pre = *self;
        let row = match Session::create(&mut self.store, user_id, connection_id) {
            Ok(s) => s,
            Err(e) => {
                return Err(e);
            },
        };
        proof {
            // registry entries keep their session rows; the new id is fresh
            Store::lemma_sessions_grow(pre.store, self.store);
            assert forall|j: int| 0 <= j < self.registry@.len() implies self.store.has_session(
                (#[trigger] self.registry@[j]).session_id,
            ) by {
                assert(pre.store.has_session(pre.registry@[j].session_id));
            }
            assert forall|j: int|
                0 <= j < self.registry@.len() implies (#[trigger] self.registry@[j]).session_id
                    != row.id by {
                if self.registry@[j].session_id == row.id {
                    assert(pre.store.has_session(pre.registry@[j].session_id));
                }
            }
            if pre.has_active(row.id) {
                let w = choose|w: int|
                    0 <= w < pre.registry@.len() && (#[trigger] pre.registry@[w]).session_id
                        == row.id;
                assert(pre.store.has_session(pre.registry@[w].session_id));
                assert(false);
            }
            let n = pre.store.sessions@.len() as int;
            assert(self.store.sessions@[n].id == row.id);
            assert(self.store.has_session(row.id));
            assert(row.status == SessionStatus::Active);
            assert(row == (Session {
                id: row.id,
                user_id,
                connection_id,
                status: SessionStatus::Active,
                created_at: pre.store.clock,
                last_activity: pre.store.clock,
            }));
        }
        Ok(
            DialPlan {
                session_id: row.id,
                host,
                port,
                username,
                startup_command,
            },
        )
    }

    /// Register the live session once the SSH handshake finished, or map
    /// the reported failure to this library's error: a rejected password is
    /// an authentication failure, every other failure is a transport error.
    /// On success the session's hub is fresh and the returned receiver is
    /// its first subscriber.
    pub fn complete_create_session(
        &mut self,
        session_id: u128,
        user_id: u128,
        connection_id: u128,
        cols: u32,
        rows: u32,
        outcome: SshOutcome,
    ) -> (r: Result<HubReceiver, HiveError>)
        requires
            old(self).wf(),
            old(self).store.has_session(session_id),
            !old(self).has_active(session_id),
        ensures
            final(self).wf(),
            final(self).store == old(self).store,
            r is Ok <==> outcome is Connected,
            match r {
                Ok(rx) => {
                    &&& final(self).registry@.len() == old(self).registry@.len() + 1
                    &&& final(self).registry@.drop_last() == old(self).registry@
                    &&& final(self).has_active(session_id)
                    &&& final(self).active_index(session_id) == old(self).registry@.len()
                    &&& ({
                        let a = final(self).registry@.last();
                        &&& a.session_id == session_id
                        &&& a.user_id == user_id
                        &&& a.connection_id == connection_id
                        &&& a.channel.open
                        &&& a.channel.cols == cols
                        &&& a.channel.rows == rows
                        &&& a.channel.sent@.len() == 0
                        &&& a.hub.wf()
                        &&& !a.hub.closed
                        &&& a.hub.history@ == Seq::<Seq<u8>>::empty()
                        &&& rx.valid_for(a.hub)
                        &&& rx.start == 0
                        &&& rx.cursor == 0
                        &&& rx.lagged == 0
                        &&& rx.delivered@ == Seq::<Seq<u8>>::empty()
                    })
                },
                Err(e) => {
                    &&& *final(self) == *old(self)
                    &&& (e is Auth <==> outcome is AuthFailed)
                    &&& (e is Auth || e is Ssh)
                },
            },
    {
        match outcome {
            SshOutcome::Connected => {
                let hub = Hub::new();
                let rx = hub.subscribe();
                let active = ActiveSession {
                    session_id,
                    connection_id,
                    user_id,
                    channel: Transport { sent: Vec::new(), cols, rows, open: true },
                    hub,
                };
                let ghost pre = *self;
                self.registry.push(active);
                proof {
                    assert forall|a: int, b: int|
                        0 <= a < b < self.registry@.len() implies (
                        #[trigger] self.registry@[a]).session_id != (
                        #[trigger] self.registry@[b]).session_id by {
                        if b == pre.registry@.len() {
                            if pre.registry@[a].session_id == session_id {
                                assert(pre.has_active(session_id));
                            }
                        } else {
                            assert(self.registry@[a] == pre.registry@[a]);
                            assert(self.registry@[b] == pre.registry@[b]);
                        }
                    }
                    self.lemma_active_index_unique(session_id, pre.registry@.len() as int);
                    assert(self.registry@.drop_last() =~= pre.registry@);
                }
                Ok(rx)
            },
            failed => {
                match failed.into_error() {
                    Some(e) => Err(e),
                    None => {
                        // unreachable: only `Connected` maps to no error
                        proof {
                            assert(false);
                        }
                        Err(HiveError::Ssh("handshake reported no error".to_owned()))
                    },
                }
            },
        }
    }

    /// Create a session end to end: authorize the caller against the
    /// connection, record the session row, and register the live session if
    /// the handshake succeeded. A handshake failure leaves the recorded row
    /// behind, still active, with no live session; a later reconciliation
    /// may close such orphans.
    pub fn create_session(
        &mut self,
        user_id: u128,
        connection_id: u128,
        cols: u32,
        rows: u32,
        password: &str,
        outcome: SshOutcome,
    ) -> (r: Result<(u128, HubReceiver), HiveError>)
        requires
            old(self).wf(),
        ensures
            final(self).wf(),
            status_monotone(old(self).store, final(self).store),
            final(self).store.users@ == old(self).store.users@,
            final(self).store.api_keys@ == old(self).store.api_keys@,
            final(self).store.connections@ == old(self).store.connections@,
            final(self).store.scrollback@ == old(self).store.scrollback@,
            !old(self).store.has_connection(connection_id) ==> r is Err && *final(self) == *old(
                self,
            ),
            old(self).store.has_connection(connection_id) && old(self).store.connection_user(
                connection_id,
            ) != user_id ==> r is Err && *final(self) == *old(self),
            !(outcome is Connected) ==> r is Err,
            old(self).store.sessions@.len() == 0 && old(self).store.has_connection(connection_id)
                && old(self).store.connection_user(connection_id) == user_id && outcome
                is Connected ==> r is Ok,
            match r {
                Ok((sid, rx)) => {
                    &&& outcome is Connected
                    &&& old(self).store.has_connection(connection_id)
                    &&& old(self).store.connection_user(connection_id) == user_id
                    &&& !old(self).store.has_session(sid)
                    &&& final(self).store.has_session(sid)
                    &&& final(self).store.session_user(sid) == user_id
                    &&& final(self).store.session_is_active(sid)
                    &&& final(self).has_active(sid)
                    &&& ({
                        let a = final(self).active_of(sid);
                        &&& a.user_id == user_id
                        &&& a.connection_id == connection_id
                        &&& a.channel.open
                        &&& a.channel.cols == cols
                        &&& a.channel.rows == rows
                        &&& a.hub.wf()
                        &&& !a.hub.closed
                        &&& a.hub.history@ == Seq::<Seq<u8>>::empty()
                        &&& rx.valid_for(a.hub)
                        &&& rx.lagged == 0
                        &&& rx.delivered@ == Seq::<Seq<u8>>::empty()
                    })
                },
                Err(e) => {
                    &&& (!old(self).store.has_connection(connection_id) ==> e is Session)
                    &&& (old(self).store.has_connection(connection_id) && old(
                        self,
                    ).store.connection_user(connection_id) != user_id ==> e is Auth)
                    &&& (old(self).store.has_connection(connection_id) && old(
                        self,
                    ).store.connection_user(connection_id) == user_id && !(e is Database) ==> {
                        &&& !(outcome is Connected)
                        &&& (e is Auth <==> outcome is AuthFailed)
                        &&& (e is Ssh <==> !(outcome is AuthFailed))
                        &&& final(self).registry@ == old(self).registry@
                        &&& exists|sid: u128|
                            {
                                &&& !old(self).store.has_session(sid)
                                &&& final(self).store.sessions@ == old(
                                    self,
                                ).store.sessions@.push(
                                    (Session {
                                        id: sid,
                                        user_id,
                                        connection_id,
                                        status: SessionStatus::Active,
                                        created_at: old(self).store.clock,
                                        last_activity: old(self).store.clock,
                                    }),
                                )
                                &&& final(self).store.has_session(sid)
                                &&& final(self).store.session_is_active(sid)
                                &&& final(self).store.session_user(sid) == user_id
                            }
                    })
                },
            },
    {
        let plan = match self.begin_create_session(user_id, connection_id) {
            Ok(p) => p,
            Err(e) => {
                return Err(e);
            },
        };
        let session_id = plan.session_id;
        proof {
            self.store.lemma_session_index_unique(
                session_id,
                old(self).store.sessions@.len() as int,
            );
        }
        match self.complete_create_session(session_id, user_id, connection_id, cols, rows, outcome) {
            Ok(rx) => Ok((session_id, rx)),
            Err(e) => {
                proof {
                    self.store.lemma_session_index_unique(
                        session_id,
                        old(self).store.sessions@.len() as int,
                    );
                    assert(self.store.sessions@ == old(self).store.sessions@.push(
                        (Session {
                            id: session_id,
                            user_id,
                            connection_id,
                            status: SessionStatus::Active,
                            created_at: old(self).store.clock,
                            last_activity: old(self).store.clock,
                        }),
                    ));
                }
                Err(e)
            },
        }
    }

    /// Tear down the session: drop it from the registry, close its channel
    /// and hub, and mark its row closed. Closing a session that is not
    /// live changes nothing; a second close is a no-op.
    pub fn close_session(&mut self, session_id: u128) -> (r: Result<(), HiveError>)
        requires
            old(self).wf(),
        ensures
            final(self).wf(),
            r is Ok,
            status_monotone(old(self).store, final(self).store),
            !old(self).has_active(session_id) ==> *final(self) == *old(self),
            old(self).has_active(session_id) ==> {
                &&& !final(self).has_active(session_id)
                &&& final(self).store.session_closed(session_id)
                &&& final(self).registry@ == old(self).registry@.remove(
                    old(self).active_index(session_id),
                )
                &&& final(self).store.users@ == old(self).store.users@
                &&& final(self).store.api_keys@ == old(self).store.api_keys@
                &&& final(self).store.connections@ == old(self).store.connections@
                &&& final(self).store.scrollback@ == old(self).store.scrollback@
            },
    {
        let i = match self.get_session(session_id) {
            None => {
                return Ok(());
            },
            Some(i) => i,
        };
        let ghost pre = *self;
        proof {
            pre.lemma_active_index_unique(session_id, i as int);
        }
        let mut active = self.registry.remove(i);
        active.shut_down();
        let _closed = match Session::close(&mut self.store, session_id) {
            Ok(b) => b,
            Err(_) => false,
        };
        proof {
            assert forall|a: int, b: int|
                0 <= a < b < self.registry@.len() implies (
                #[trigger] self.registry@[a]).session_id != (
                #[trigger] self.registry@[b]).session_id by {
                let pa = if a < i as int {
                    a
                } else {
                    a + 1
                };
                let pb = if b < i as int {
                    b
                } else {
                    b + 1
                };
                assert(self.registry@[a].session_id == pre.registry@[pa].session_id);
                assert(self.registry@[b].session_id == pre.registry@[pb].session_id);
            }
            Store::lemma_sessions_grow(pre.store, self.store);
            assert forall|j: int| 0 <= j < self.registry@.len() implies self.store.has_session(
                (#[trigger] self.registry@[j]).session_id,
            ) && self.registry@[j].hub.wf() by {
                let pj = if j < i as int {
                    j
                } else {
                    j + 1
                };
                assert(self.registry@[j] == pre.registry@[pj]);
                assert(pre.store.has_session(pre.registry@[pj].session_id));
            }
            assert forall|x: u128| self.has_active(x) implies x != session_id by {
                let w = choose|w: int|
                    0 <= w < self.registry@.len() && (#[trigger] self.registry@[w]).session_id
                        == x;
                let pw = if w < i as int {
                    w
                } else {
                    w + 1
                };
                assert(pre.registry@[pw].session_id == x);
                if x == session_id {
                    pre.lemma_active_index_unique(session_id, pw);
                }
            }
        }
        Ok(())
    }

    /// Subscribe the caller to a live session's output. The session row
    /// must exist, belong to the caller and still be active, and the
    /// session must be live in this process. No replay: the subscription
    /// starts at the stream's current tail.
    pub fn attach_to_session(&self, session_id: u128, user_id: u128) -> (r: Result<
        HubReceiver,
        HiveError,
    >)
        requires
            self.wf(),
        ensures
            !self.store.has_session(session_id) ==> r is Err,
            self.store.has_session(session_id) && self.store.session_user(session_id) != user_id
                ==> (r matches Err(e) && e is Auth),
            self.store.has_session(session_id) && self.store.session_user(session_id) == user_id
                && !(self.store.session_is_active(session_id) && self.has_active(session_id))
                ==> (r matches Err(e) && e is Session),
            r is Ok <==> (self.store.has_session(session_id) && self.store.session_user(
                session_id,
            ) == user_id && self.store.session_is_active(session_id) && self.has_active(
                session_id,
            )),
            match r {
                Ok(rx) => {
                    &&& rx.valid_for(self.active_of(session_id).hub)
                    &&& rx.start == self.active_of(session_id).hub.history@.len()
                    &&& rx.cursor == rx.start
                    &&& rx.lagged == 0
                    &&& rx.delivered@ == Seq::<Seq<u8>>::empty()
                },
                Err(e) => e is Session || e is Auth,
            },
    {
        let sidx = match find_session_index_by_id(&self.store, session_id) {
            None => {
                return Err(HiveError::Session("Session not found".to_owned()));
            },
            Some(i) => i,
        };
        proof {
            self.store.lemma_session_index_unique(session_id, sidx as int);
        }
        if self.store.sessions[sidx].user_id != user_id {
            return Err(HiveError::Auth("Not authorized to access this session".to_owned()));
        }
        if !matches!(self.store.sessions[sidx].status, SessionStatus::Active) {
            return Err(HiveError::Session("Session is not active".to_owned()));
        }
        let i = match self.get_session(session_id) {
            None => {
                return Err(HiveError::Session("Session not active in memory".to_owned()));
            },
            Some(i) => i,
        };
        proof {
            self.lemma_active_index_unique(session_id, i as int);
        }
        Ok(self.registry[i].subscribe())
    }

    /// Full scrollback history of a session, after an ownership check.
    pub fn get_scrollback(&self, session_id: u128, user_id: u128) -> (r: Result<
        Vec<u8>,
        HiveError,
    >)
        requires
            self.wf(),
        ensures
            !self.store.has_session(session_id) ==> (r matches Err(e) && e is Session),
            self.store.has_session(session_id) && self.store.session_user(session_id) != user_id
                ==> (r matches Err(e) && e is Auth),
            self.store.has_session(session_id) && self.store.session_user(session_id) == user_id
                ==> r is Ok,
            match r {
                Ok(v) => self.store.has_session(session_id) && self.store.session_user(
                    session_id,
                ) == user_id && v@ == self.store.log_bytes(session_id),
                Err(e) => e is Session || e is Auth,
            },
    {
        let sidx = match find_session_index_by_id(&self.store, session_id) {
            None => {
                return Err(HiveError::Session("Session not found".to_owned()));
            },
            Some(i) => i,
        };
        proof {
            self.store.lemma_session_index_unique(session_id, sidx as int);
        }
        if self.store.sessions[sidx].user_id != user_id {
            return Err(HiveError::Auth("Not authorized to access this session".to_owned()));
        }
        ScrollbackChunk::get_all(&self.store, session_id)
    }

    /// Scrollback from a byte offset on, after an ownership check; empty
    /// when the offset is at or past the end of the recorded stream.
    pub fn get_scrollback_from_offset(&self, session_id: u128, user_id: u128, offset: usize) -> (r:
        Result<Vec<u8>, HiveError>)
        requires
            self.wf(),
        ensures
            !self.store.has_session(session_id) ==> (r matches Err(e) && e is Session),
            self.store.has_session(session_id) && self.store.session_user(session_id) != user_id
                ==> (r matches Err(e) && e is Auth),
            self.store.has_session(session_id) && self.store.session_user(session_id) == user_id
                ==> r is Ok,
            match r {
                Ok(v) => {
                    &&& self.store.has_session(session_id)
                    &&& self.store.session_user(session_id) == user_id
                    &&& offset <= self.store.log_bytes(session_id).len() ==> v@
                        == self.store.log_bytes(session_id).skip(offset as int)
                    &&& offset > self.store.log_bytes(session_id).len() ==> v@
                        == Seq::<u8>::empty()
                },
                Err(e) => e is Session || e is Auth,
            },
    {
        let sidx = match find_session_index_by_id(&self.store, session_id) {
            None => {
                return Err(HiveError::Session("Session not found".to_owned()));
            },
            Some(i) => i,
        };
        proof {
            self.store.lemma_session_index_unique(session_id, sidx as int);
        }
        if self.store.sessions[sidx].user_id != user_id {
            return Err(HiveError::Auth("Not authorized to access this session".to_owned()));
        }
        ScrollbackChunk::get_from_offset(&self.store, session_id, offset)
    }

    /// Total recorded scrollback size of a session, after an ownership
    /// check.
    pub fn get_scrollback_size(&self, session_id: u128, user_id: u128) -> (r: Result<
        usize,
        HiveError,
    >)
        requires
            self.wf(),
        ensures
            !self.store.has_session(session_id) ==> (r matches Err(e) && e is Session),
            self.store.has_session(session_id) && self.store.session_user(session_id) != user_id
                ==> (r matches Err(e) && e is Auth),
            self.store.has_session(session_id) && self.store.session_user(session_id) == user_id
                ==> r is Ok,
            match r {
                Ok(n) => self.store.has_session(session_id) && self.store.session_user(
                    session_id,
                ) == user_id && n == self.store.log_bytes(session_id).len(),
                Err(e) => e is Session || e is Auth,
            },
    {
        let sidx = match find_session_index_by_id(&self.store, session_id) {
            None => {
                return Err(HiveError::Session("Session not found".to_owned()));
            },
            Some(i) => i,
        };
        proof {
            self.store.lemma_session_index_unique(session_id, sidx as int);
        }
        if self.store.sessions[sidx].user_id != user_id {
            return Err(HiveError::Auth("Not authorized to access this session".to_owned()));
        }
        ScrollbackChunk::total_size(&self.store, session_id)
    }

    /// Reattach with recovery: replay the recorded bytes from the caller's
    /// last seen offset (or the whole log) and hand out a live subscription
    /// starting at the stream's current tail. Every byte recorded before
    /// the call is in the replay; bytes published but not yet recorded may
    /// appear in both the replay and the live stream, never in neither.
    pub fn attach_with_recovery(
        &self,
        session_id: u128,
        user_id: u128,
        last_seen_offset: Option<usize>,
    ) -> (r: Result<(Vec<u8>, HubReceiver), HiveError>)
        requires
            self.wf(),
        ensures
            !self.store.has_session(session_id) ==> r is Err,
            self.store.has_session(session_id) && self.store.session_user(session_id) != user_id
                ==> (r matches Err(e) && e is Auth),
            self.store.has_session(session_id) && self.store.session_user(session_id) == user_id
                && !(self.store.session_is_active(session_id) && self.has_active(session_id))
                ==> (r matches Err(e) && e is Session),
            r is Ok <==> (self.store.has_session(session_id) && self.store.session_user(
                session_id,
            ) == user_id && self.store.session_is_active(session_id) && self.has_active(
                session_id,
            )),
            match r {
                Ok((replay, rx)) => {
                    &&& (match last_seen_offset {
                        Some(offset) => {
                            &&& offset <= self.store.log_bytes(session_id).len() ==> replay@
                                == self.store.log_bytes(session_id).skip(offset as int)
                            &&& offset > self.store.log_bytes(session_id).len() ==> replay@
                                == Seq::<u8>::empty()
                        },
                        None => replay@ == self.store.log_bytes(session_id),
                    })
                    &&& rx.valid_for(self.active_of(session_id).hub)
                    &&& rx.start == self.active_of(session_id).hub.history@.len()
                    &&& rx.cursor == rx.start
                    &&& rx.lagged == 0
                    &&& rx.delivered@ == Seq::<Seq<u8>>::empty()
                },
                Err(e) => e is Session || e is Auth,
            },
    {
        let sidx = match find_session_index_by_id(&self.store, session_id) {
            None => {
                return Err(HiveError::Session("Session not found".to_owned()));
            },
            Some(i) => i,
        };
        proof {
            self.store.lemma_session_index_unique(session_id, sidx as int);
        }
        if self.store.sessions[sidx].user_id != user_id {
            return Err(HiveError::Auth("Not authorized to access this session".to_owned()));
        }
        if !matches!(self.store.sessions[sidx].status, SessionStatus::Active) {
            return Err(HiveError::Session("Session is not active".to_owned()));
        }
        let replay = match last_seen_offset {
            Some(offset) => {
                match ScrollbackChunk::get_from_offset(&self.store, session_id, offset) {
                    Ok(v) => v,
                    Err(e) => {
                        return Err(e);
                    },
                }
            },
            None => {
                match ScrollbackChunk::get_all(&self.store, session_id) {
                    Ok(v) => v,
                    Err(e) => {
                        return Err(e);
                    },
                }
            },
        };
        let i = match self.get_session(session_id) {
            None => {
                return Err(HiveError::Session("Session not active in memory".to_owned()));
            },
            Some(i) => i,
        };
        proof {
            self.lemma_active_index_unique(session_id, i as int);
        }
        Ok((replay, self.registry[i].subscribe()))
    }

    /// Forward input bytes to a live session's SSH channel.
    pub fn send_to_session(&mut self, session_id: u128, data: &[u8]) -> (r: Result<
        (),
        HiveError,
    >)
        requires
            old(self).wf(),
        ensures
            final(self).wf(),
            final(self).store == old(self).store,
            match r {
                Ok(_) => {
                    &&& old(self).has_active(session_id)
                    &&& old(self).active_of(session_id).channel.open
                    &&& final(self).has_active(session_id)
                    &&& final(self).active_index(session_id) == old(self).active_index(
                        session_id,
                    )
                    &&& final(self).active_of(session_id).channel.sent_v() == old(
                        self,
                    ).active_of(session_id).channel.sent_v().push(data@)
                    &&& final(self).active_of(session_id).hub == old(self).active_of(
                        session_id,
                    ).hub
                    &&& final(self).active_of(session_id).channel.open
                    &&& final(self).registry@.len() == old(self).registry@.len()
                    &&& forall|j: int|
                        0 <= j < final(self).registry@.len() && j != old(self).active_index(
                            session_id,
                        ) ==> (#[trigger] final(self).registry@[j]) == old(self).registry@[j]
                },
                Err(e) => {
                    &&& *final(self) == *old(self)
                    &&& (e is Session <==> !old(self).has_active(session_id))
                    &&& (e is Ssh <==> old(self).has_active(session_id) && !old(self).active_of(
                        session_id,
                    ).channel.open)
                    &&& (e is Session || e is Ssh)
                },
            },
    {
        let i = match self.get_session(session_id) {
            None => {
                return Err(HiveError::Session("Session not found".to_owned()));
            },
            Some(i) => i,
        };
        let ghost pre = *self;
        proof {
            pre.lemma_active_index_unique(session_id, i as int);
        }
        if !self.registry[i].channel.open {
            return Err(HiveError::Ssh("failed to send data: channel closed".to_owned()));
        }
        let mut active = self.registry.remove(i);
        let res = active.send(data);
        self.registry.insert(i, active);
        match res {
            Ok(_) => {},
            Err(_) => {
                proof {
                    assert(false);
                }
            },
        }
        proof {
            self.lemma_registry_update_wf(pre, i as int, session_id);
        }
        Ok(())
    }

    /// Resize a live session's terminal. Any dimensions are accepted,
    /// including ones equal to the current dimensions.
    pub fn resize_session(&mut self, session_id: u128, cols: u32, rows: u32) -> (r: Result<
        (),
        HiveError,
    >)
        requires
            old(self).wf(),
        ensures
            final(self).wf(),
            final(self).store == old(self).store,
            match r {
                Ok(_) => {
                    &&& old(self).has_active(session_id)
                    &&& old(self).active_of(session_id).channel.open
                    &&& final(self).has_active(session_id)
                    &&& final(self).active_index(session_id) == old(self).active_index(
                        session_id,
                    )
                    &&& final(self).active_of(session_id).channel.open
                    &&& final(self).active_of(session_id).channel.cols == cols
                    &&& final(self).active_of(session_id).channel.rows == rows
                    &&& final(self).active_of(session_id).channel.sent@ == old(self).active_of(
                        session_id,
                    ).channel.sent@
                    &&& final(self).active_of(session_id).hub == old(self).active_of(
                        session_id,
                    ).hub
                    &&& final(self).registry@.len() == old(self).registry@.len()
                    &&& forall|j: int|
                        0 <= j < final(self).registry@.len() && j != old(self).active_index(
                            session_id,
                        ) ==> (#[trigger] final(self).registry@[j]) == old(self).registry@[j]
                },
                Err(e) => {
                    &&& *final(self) == *old(self)
                    &&& (e is Session <==> !old(self).has_active(session_id))
                    &&& (e is Ssh <==> old(self).has_active(session_id) && !old(self).active_of(
                        session_id,
                    ).channel.open)
                    &&& (e is Session || e is Ssh)
                },
            },
    {
        let i = match self.get_session(session_id) {
            None => {
                return Err(HiveError::Session("Session not found".to_owned()));
            },
            Some(i) => i,
        };
        let ghost pre = *self;
        proof {
            pre.lemma_active_index_unique(session_id, i as int);
        }
        if !self.registry[i].channel.open {
            return Err(HiveError::Ssh("failed to resize: channel closed".to_owned()));
        }
        let mut active = self.registry.remove(i);
        let res = active.resize(cols, rows);
        self.registry.insert(i, active);
        match res {
            Ok(_) => {},
            Err(_) => {
                proof {
                    assert(false);
                }
            },
        }
        proof {
            self.lemma_registry_update_wf(pre, i as int, session_id);
        }
        Ok(())
    }

    /// Publish one message of SSH output into a live session's hub; this is
    /// the manager-side half of the transport's data callbacks. Reports
    /// whether the message was published: output for a session that is not
    /// live, whose hub is closed, or whose history is at the limit of
    /// addressable length is dropped.
    pub fn deliver_to_session(&mut self, session_id: u128, data: Vec<u8>) -> (delivered: bool)
        requires
            old(self).wf(),
        ensures
            final(self).wf(),
            final(self).store == old(self).store,
            !old(self).has_active(session_id) ==> !delivered && *final(self) == *old(self),
            old(self).has_active(session_id) ==> {
                &&& final(self).has_active(session_id)
                &&& final(self).active_index(session_id) == old(self).active_index(session_id)
                &&& final(self).registry@.len() == old(self).registry@.len()
                &&& forall|j: int|
                    0 <= j < final(self).registry@.len() && j != old(self).active_index(
                        session_id,
                    ) ==> (#[trigger] final(self).registry@[j]) == old(self).registry@[j]
                &&& (delivered <==> (!old(self).active_of(session_id).hub.closed && old(
                    self,
                ).active_of(session_id).hub.history@.len() < usize::MAX))
                &&& (delivered ==> final(self).active_of(session_id).hub.history@ == old(
                    self,
                ).active_of(session_id).hub.history@.push(data@) && final(self).active_of(
                    session_id,
                ).channel == old(self).active_of(session_id).channel)
                &&& (!delivered ==> *final(self) == *old(self))
            },
    {
        let i = match self.get_session(session_id) {
            None => {
                return false;
            },
            Some(i) => i,
        };
        let ghost pre = *self;
        proof {
            pre.lemma_active_index_unique(session_id, i as int);
        }
        if self.registry[i].hub.closed {
            return false;
        }
        let tail = self.registry[i].hub.base + self.registry[i].hub.buffer.len();
        if tail == usize::MAX {
            return false;
        }
        let mut active = self.registry.remove(i);
        active.deliver_output(data);
        self.registry.insert(i, active);
        proof {
            self.lemma_registry_update_wf(pre, i as int, session_id);
        }
        true
    }

    /// Replacing the entry at `i` with one carrying the same session id and
    /// a consistent hub preserves the manager invariant and the indexing of
    /// every session.
    proof fn lemma_registry_update_wf(self, pre: SessionManager, i: int, sid: u128)
        requires
            pre.wf(),
            self.store == pre.store,
            0 <= i < pre.registry@.len(),
            self.registry@.len() == pre.registry@.len(),
            pre.registry@[i].session_id == sid,
            self.registry@[i].session_id == sid,
            self.registry@[i].hub.wf(),
            forall|j: int|
                0 <= j < self.registry@.len() && j != i ==> (#[trigger] self.registry@[j])
                    == pre.registry@[j],
        ensures
            self.wf(),
            self.has_active(sid),
            self.active_index(sid) == i,
            pre.has_active(sid),
            pre.active_index(sid) == i,
    {
        assert forall|a: int, b: int|
            0 <= a < b < self.registry@.len() implies (#[trigger] self.registry@[a]).session_id
                != (#[trigger] self.registry@[b]).session_id by {
            assert(self.registry@[a].session_id == pre.registry@[a].session_id);
            assert(self.registry@[b].session_id == pre.registry@[b].session_id);
        }
        assert forall|j: int| 0 <= j < self.registry@.len() implies self.store.has_session(
            (#[trigger] self.registry@[j]).session_id,
        ) && self.registry@[j].hub.wf() by {
            assert(self.registry@[j].session_id == pre.registry@[j].session_id);
            assert(pre.store.has_session(pre.registry@[j].session_id));
            if j != i {
                assert(pre.registry@[j].hub.wf());
            }
        }
        self.lemma_active_index_unique(sid, i);
        pre.lemma_active_index_unique(sid, i);
    }
}

/// Invariant of the persistence task: while the scrollback equals the
/// concatenation of the messages the task has received so far, persisting
/// the next published message keeps it so. Together with the receive and
/// append contracts, the recorded stream equals the hub messages in publish
/// order, excluding only what lag dropped.
pub proof fn lemma_persistence_preserves_stream(
    recorded: Seq<u8>,
    received: Seq<Seq<u8>>,
    msg: Seq<u8>,
)
    requires
        recorded == crate::scrollback::cat(received),
    ensures
        recorded + msg == crate::scrollback::cat(received.push(msg)),
{
    assert(received.push(msg).drop_last() =~= received);
}

/// The outcome of one step of the persistence task.
pub enum PumpStep {
    /// A message was received and recorded in the scrollback log.
    Persisted,
    /// A message was received but would not fit in the log; it was dropped
    /// and the session continues with a degraded log.
    Dropped,
    /// The receiver missed this many messages; their bytes are lost from
    /// the scrollback.
    LaggedBy(u64),
    /// The hub is closed and fully drained: the task is done.
    Finished,
    /// Nothing new was published yet.
    Idle,
}

impl SessionManager {
    /// One step of a session's persistence task: receive the next output
    /// message from the hub and append it to the scrollback log. The
    /// recorded stream thus extends by exactly the published messages the
    /// receiver does not miss, in publish order.
    pub fn pump_scrollback_step(&mut self, session_id: u128, rec: &mut HubReceiver) -> (r:
        PumpStep)
        requires
            old(self).wf(),
            old(self).has_active(session_id),
            old(rec).valid_for(old(self).active_of(session_id).hub),
        ensures
            final(self).wf(),
            final(self).registry@ == old(self).registry@,
            final(self).store.users@ == old(self).store.users@,
            final(self).store.api_keys@ == old(self).store.api_keys@,
            final(self).store.connections@ == old(self).store.connections@,
            final(self).store.sessions@ == old(self).store.sessions@,
            status_monotone(old(self).store, final(self).store),
            final(rec).valid_for(final(self).active_of(session_id).hub),
            forall|x: u128|
                x != session_id ==> final(self).store.log_bytes(x) == old(self).store.log_bytes(
                    x,
                ),
            match r {
                PumpStep::Persisted => {
                    &&& old(rec).cursor < old(self).active_of(session_id).hub.history@.len()
                    &&& final(self).store.log_bytes(session_id) == old(self).store.log_bytes(
                        session_id,
                    ) + old(self).active_of(session_id).hub.history@[old(rec).cursor as int]
                    &&& final(rec).cursor == old(rec).cursor + 1
                    &&& final(rec).lagged == old(rec).lagged
                },
                PumpStep::Dropped => ({
                    let h = old(self).active_of(session_id).hub;
                    &&& final(self).store == old(self).store
                    &&& old(rec).cursor < h.history@.len()
                    &&& old(self).store.log_bytes(session_id).len() + h.history@[old(
                        rec,
                    ).cursor as int].len() > usize::MAX
                    &&& final(rec).cursor == old(rec).cursor + 1
                    &&& final(rec).lagged == old(rec).lagged
                }),
                PumpStep::LaggedBy(k) => {
                    &&& final(self).store == old(self).store
                    &&& k > 0
                    &&& final(rec).cursor == old(rec).cursor + k
                },
                PumpStep::Finished => {
                    &&& final(self).store == old(self).store
                    &&& old(self).active_of(session_id).hub.closed
                    &&& old(rec).cursor == old(self).active_of(session_id).hub.history@.len()
                    &&& *final(rec) == *old(rec)
                },
                PumpStep::Idle => {
                    &&& final(self).store == old(self).store
                    &&& !old(self).active_of(session_id).hub.closed
                    &&& old(rec).cursor == old(self).active_of(session_id).hub.history@.len()
                    &&& *final(rec) == *old(rec)
                },
            },
    {
        let i = match self.get_session(session_id) {
            None => {
                proof {
                    assert(false);
                }
                return PumpStep::Idle;
            },
            Some(i) => i,
        };
        let ghost pre = *self;
        proof {
            pre.lemma_active_index_unique(session_id, i as int);
        }
        let step = self.registry[i].hub.recv(rec);
        match step {
            Received::Data(m) => {
                let total = match ScrollbackChunk::total_size(&self.store, session_id) {
                    Ok(t) => t,
                    Err(_) => {
                        proof {
                            assert(false);
                        }
                        return PumpStep::Dropped;
                    },
                };
                if m.len() <= usize::MAX - total {
                    proof {
                        assert(pre.store.has_session(pre.registry@[i as int].session_id));
                    }
                    let res = ScrollbackChunk::append(&mut self.store, session_id, m.as_slice());
                    match res {
                        Ok(_) => {},
                        Err(_) => {
                            proof {
                                assert(false);
                            }
                        },
                    }
                    proof {
                        Store::lemma_sessions_grow(pre.store, self.store);
                        assert forall|j: int|
                            0 <= j < self.registry@.len() implies self.store.has_session(
                            (#[trigger] self.registry@[j]).session_id,
                        ) by {
                            assert(pre.store.has_session(pre.registry@[j].session_id));
                        }
                    }
                    PumpStep::Persisted
                } else {
                    PumpStep::Dropped
                }
            },
            Received::Lagged(k) => PumpStep::LaggedBy(k),
            Received::Closed => PumpStep::Finished,
            Received::Pending => PumpStep::Idle,
        }
    }
}

} // verus!
