//! Request-level decisions of the RPC services.
//!
//! The transport resolves the caller's identity from request metadata and
//! hands these functions a user id and plain request fields. They enforce
//! ownership and field validity, and report failures as the standard RPC
//! status kinds the service maps them to.

use crate::crypto;
use crate::models::{
    find_connection_index_by_id, find_session_index_by_id, status_monotone, ApiKey, Connection,
    Session, Store,
};
use vstd::prelude::*;

verus! {

/// The status kinds the RPC boundary reports.
#[derive(Debug, Clone, Copy, PartialEq, Eq, Structural)]
pub enum RpcErrorKind {
    NotFound,
    PermissionDenied,
    Unauthenticated,
    InvalidArgument,
    Internal,
}

/// What resolving an API key yields: an identity, or an invalid flag.
pub struct AuthOutcome {
    pub valid: bool,
    pub user_id: u128,
    pub username: String,
}

/// Resolve an opaque API key to a user identity by hash lookup; a hit also
/// stamps the key's last-used time. An unknown key yields an invalid
/// outcome with an empty identity, never an error.
pub fn validate_api_key(store: &mut Store, key: &str) -> (r: AuthOutcome)
    requires
        old(store).wf(),
    ensures
        final(store).wf(),
        status_monotone(*old(store), *final(store)),
        final(store).users@ == old(store).users@,
        final(store).connections@ == old(store).connections@,
        final(store).sessions@ == old(store).sessions@,
        final(store).scrollback@ == old(store).scrollback@,
        r.valid <==> old(store).has_key_hash(crypto::key_hash_of(key@)),
        !r.valid ==> r.user_id == 0 && r.username@ == Seq::<char>::empty() && *final(store)
            == *old(store),
        r.valid ==> exists|i: int|
            {
                &&& 0 <= i < old(store).api_keys@.len()
                &&& (#[trigger] old(store).api_keys@[i]).key_hash@ == crypto::key_hash_of(key@)
                &&& forall|j: int|
                    0 <= j < i ==> (#[trigger] old(store).api_keys@[j]).key_hash@
                        != crypto::key_hash_of(key@)
                &&& r.user_id == old(store).api_keys@[i].user_id
            },
        r.valid ==> exists|m: int|
            0 <= m < old(store).users@.len() && (#[trigger] old(store).users@[m]).id == r.user_id
                && old(store).users@[m].username@ == r.username@,
    {
    match ApiKey::validate(store, key) {
        Ok(Some((k, u))) => AuthOutcome { valid: true, user_id: u.id, username: u.username },
        Ok(None) => AuthOutcome { valid: false, user_id: 0, username: String::new() },
        Err(_) => {
            proof {
                assert(false);
            }
            AuthOutcome { valid: false, user_id: 0, username: String::new() }
        },
    }
}

/// The request's connection fields are acceptable: required strings are
/// non-empty and the port lies in the valid TCP range.
pub open spec fn connection_fields_valid(
    name: Seq<char>,
    host: Seq<char>,
    port: i32,
    username: Seq<char>,
) -> bool {
    name.len() > 0 && host.len() > 0 && username.len() > 0 && 1 <= port <= 65535
}

/// Check the connection fields of a request.
fn check_connection_fields(name: &str, host: &str, port: i32, username: &str) -> (r: bool)
    ensures
        r == connection_fields_valid(name@, host@, port, username@),
{
    !name.is_empty() && !host.is_empty() && !username.is_empty() && 1 <= port && port <= 65535
}

/// The caller's saved connections.
pub fn list_connections(store: &Store, user_id: u128) -> (r: Vec<Connection>)
    requires
        store.wf(),
    ensures
        crate::models::connection_views(r@) == store.connections_v().filter(
            crate::models::connection_owned_by(user_id),
        ),
{
    match Connection::list_for_user(store, user_id) {
        Ok(cs) => cs,
        Err(_) => {
            proof {
                assert(false);
            }
            Vec::new()
        },
    }
}

/// Create a connection owned by the caller. Malformed fields are rejected;
/// a store-level failure surfaces as an internal error.
pub fn create_connection(
    store: &mut Store,
    user_id: u128,
    name: &str,
    host: &str,
    port: i32,
    username: &str,
    ssh_key_id: Option<u128>,
    startup_command: Option<&str>,
) -> (r: Result<Connection, RpcErrorKind>)
    requires
        old(store).wf(),
    ensures
        final(store).wf(),
        status_monotone(*old(store), *final(store)),
        final(store).users@ == old(store).users@,
        final(store).api_keys@ == old(store).api_keys@,
        final(store).sessions@ == old(store).sessions@,
        final(store).scrollback@ == old(store).scrollback@,
        !connection_fields_valid(name@, host@, port, username@) ==> r
            == Err::<Connection, RpcErrorKind>(RpcErrorKind::InvalidArgument) && *final(store)
            == *old(store),
        old(store).connections@.len() == 0 && old(store).has_user(user_id)
            && connection_fields_valid(name@, host@, port, username@) ==> r is Ok,
        match r {
            Ok(c) => {
                &&& connection_fields_valid(name@, host@, port, username@)
                &&& old(store).has_user(user_id)
                &&& c@.user_id == user_id
                &&& c@.name == name@
                &&& c@.host == host@
                &&& c@.port == port
                &&& c@.username == username@
                &&& final(store).connections_v() == old(store).connections_v().push(c@)
            },
            Err(e) => {
                &&& *final(store) == *old(store)
                &&& (e is InvalidArgument <==> !connection_fields_valid(
                    name@,
                    host@,
                    port,
                    username@,
                ))
                &&& (e is InvalidArgument || e is Internal)
            },
        },
{
    if !check_connection_fields(name, host, port, username) {
        return Err(RpcErrorKind::InvalidArgument);
    }
    match Connection::create(store, user_id, name, host, port, username, ssh_key_id,
        startup_command) {
        Ok(c) => Ok(c),
        Err(_) => Err(RpcErrorKind::Internal),
    }
}

/// Rewrite a connection the caller owns. A connection that does not exist
/// is not found; one owned by someone else is forbidden, whatever the
/// request asks for.
pub fn update_connection(
    store: &mut Store,
    user_id: u128,
    id: u128,
    name: &str,
    host: &str,
    port: i32,
    username: &str,
    ssh_key_id: Option<u128>,
    startup_command: Option<&str>,
) -> (r: Result<Connection, RpcErrorKind>)
    requires
        old(store).wf(),
    ensures
        final(store).wf(),
        status_monotone(*old(store), *final(store)),
        final(store).users@ == old(store).users@,
        final(store).api_keys@ == old(store).api_keys@,
        final(store).sessions@ == old(store).sessions@,
        final(store).scrollback@ == old(store).scrollback@,
        !old(store).has_connection(id) ==> r == Err::<Connection, RpcErrorKind>(
            RpcErrorKind::NotFound,
        ) && *final(store) == *old(store),
        old(store).has_connection(id) && old(store).connection_user(id) != user_id ==> r
            == Err::<Connection, RpcErrorKind>(RpcErrorKind::PermissionDenied) && *final(store)
            == *old(store),
        old(store).has_connection(id) && old(store).connection_user(id) == user_id
            && connection_fields_valid(name@, host@, port, username@) ==> r is Ok,
        match r {
            Ok(c) => {
                &&& old(store).has_connection(id)
                &&& old(store).connection_user(id) == user_id
                &&& connection_fields_valid(name@, host@, port, username@)
                &&& c@.id == id
                &&& c@.user_id == user_id
                &&& c@.name == name@
                &&& c@.host == host@
                &&& c@.port == port
                &&& c@.username == username@
                &&& final(store).connections_v() == old(store).connections_v().update(
                    old(store).connection_index(id),
                    c@,
                )
            },
            Err(e) => {
                &&& *final(store) == *old(store)
                &&& (e is NotFound <==> !old(store).has_connection(id))
                &&& (e is PermissionDenied <==> old(store).has_connection(id) && old(
                    store,
                ).connection_user(id) != user_id)
                &&& (e is InvalidArgument <==> old(store).has_connection(id) && old(
                    store,
                ).connection_user(id) == user_id && !connection_fields_valid(
                    name@,
                    host@,
                    port,
                    username@,
                ))
            },
        },
{
    let cidx = match find_connection_index_by_id(store, id) {
        None => {
            return Err(RpcErrorKind::NotFound);
        },
        Some(i) => i,
    };
    proof {
        store.lemma_connection_index_unique(id, cidx as int);
    }
    if store.connections[cidx].user_id != user_id {
        return Err(RpcErrorKind::PermissionDenied);
    }
    if !check_connection_fields(name, host, port, username) {
        return Err(RpcErrorKind::InvalidArgument);
    }
    match Connection::update(store, id, name, host, port, username, ssh_key_id, startup_command) {
        Ok(Some(c)) => {
            proof {
                let w = choose|w: int|
                    {
                        &&& 0 <= w < old(store).connections@.len()
                        &&& (#[trigger] old(store).connections@[w]).id == id
                        &&& c@.user_id == old(store).connections@[w].user_id
                        &&& c@.created_at == old(store).connections@[w].created_at
                        &&& store.connections_v() == old(store).connections_v().update(w, c@)
                    };
                old(store).lemma_connection_index_unique(id, w);
            }
            Ok(c)
        },
        Ok(None) => {
            proof {
                assert(false);
            }
            Err(RpcErrorKind::NotFound)
        },
        Err(_) => {
            proof {
                assert(false);
            }
            Err(RpcErrorKind::Internal)
        },
    }
}

/// Delete a connection the caller owns. Deletion is refused while sessions
/// still reference the connection.
pub fn delete_connection(store: &mut Store, user_id: u128, id: u128) -> (r: Result<
    (),
    RpcErrorKind,
>)
    requires
        old(store).wf(),
    ensures
        final(store).wf(),
        status_monotone(*old(store), *final(store)),
        final(store).users@ == old(store).users@,
        final(store).api_keys@ == old(store).api_keys@,
        final(store).sessions@ == old(store).sessions@,
        final(store).scrollback@ == old(store).scrollback@,
        !old(store).has_connection(id) ==> r == Err::<(), RpcErrorKind>(RpcErrorKind::NotFound)
            && *final(store) == *old(store),
        old(store).has_connection(id) && old(store).connection_user(id) != user_id ==> r == Err::<
            (),
            RpcErrorKind,
        >(RpcErrorKind::PermissionDenied) && *final(store) == *old(store),
        old(store).has_connection(id) && old(store).connection_user(id) == user_id && !(
        exists|i: int|
            0 <= i < old(store).sessions@.len() && (#[trigger] old(store).sessions@[i]).connection_id
                == id) ==> r is Ok,
        match r {
            Ok(_) => {
                &&& old(store).has_connection(id)
                &&& old(store).connection_user(id) == user_id
                &&& !final(store).has_connection(id)
            },
            Err(e) => {
                &&& *final(store) == *old(store)
                &&& (e is NotFound <==> !old(store).has_connection(id))
                &&& (e is PermissionDenied <==> old(store).has_connection(id) && old(
                    store,
                ).connection_user(id) != user_id)
                &&& (e is Internal <==> old(store).has_connection(id) && old(
                    store,
                ).connection_user(id) == user_id && exists|i: int|
                    0 <= i < old(store).sessions@.len() && (
                    #[trigger] old(store).sessions@[i]).connection_id == id)
            },
        },
{
    let cidx = match find_connection_index_by_id(store, id) {
        None => {
            return Err(RpcErrorKind::NotFound);
        },
        Some(i) => i,
    };
    proof {
        store.lemma_connection_index_unique(id, cidx as int);
    }
    if store.connections[cidx].user_id != user_id {
        return Err(RpcErrorKind::PermissionDenied);
    }
    match Connection::delete(store, id) {
        Ok(_) => Ok(()),
        Err(_) => Err(RpcErrorKind::Internal),
    }
}

/// The caller's sessions, the most recently active first.
pub fn list_sessions(store: &Store, user_id: u128) -> (r: Vec<Session>)
    requires
        store.wf(),
    ensures
        r@.to_multiset() == store.sessions@.filter(
            crate::models::row_owned_by(user_id),
        ).to_multiset(),
        crate::models::sorted_by_activity_desc(r@),
{
    match Session::list_for_user(store, user_id) {
        Ok(ss) => ss,
        Err(_) => {
            proof {
                assert(false);
            }
            Vec::new()
        },
    }
}

/// Close a session row the caller owns. Closing is idempotent; a closed
/// session stays closed.
pub fn close_session_for_user(store: &mut Store, user_id: u128, id: u128) -> (r: Result<
    (),
    RpcErrorKind,
>)
    requires
        old(store).wf(),
    ensures
        final(store).wf(),
        status_monotone(*old(store), *final(store)),
        final(store).users@ == old(store).users@,
        final(store).api_keys@ == old(store).api_keys@,
        final(store).connections@ == old(store).connections@,
        final(store).scrollback@ == old(store).scrollback@,
        !old(store).has_session(id) ==> r == Err::<(), RpcErrorKind>(RpcErrorKind::NotFound)
            && *final(store) == *old(store),
        old(store).has_session(id) && old(store).session_user(id) != user_id ==> r == Err::<
            (),
            RpcErrorKind,
        >(RpcErrorKind::PermissionDenied) && *final(store) == *old(store),
        old(store).has_session(id) && old(store).session_user(id) == user_id ==> r is Ok,
        match r {
            Ok(_) => {
                &&& old(store).has_session(id)
                &&& old(store).session_user(id) == user_id
                &&& final(store).session_closed(id)
            },
            Err(e) => {
                &&& *final(store) == *old(store)
                &&& (e is NotFound <==> !old(store).has_session(id))
                &&& (e is PermissionDenied <==> old(store).has_session(id) && old(
                    store,
                ).session_user(id) != user_id)
            },
        },
{
    let sidx = match find_session_index_by_id(store, id) {
        None => {
            return Err(RpcErrorKind::NotFound);
        },
        Some(i) => i,
    };
    proof {
        store.lemma_session_index_unique(id, sidx as int);
    }
    if store.sessions[sidx].user_id != user_id {
        return Err(RpcErrorKind::PermissionDenied);
    }
    match Session::close(store, id) {
        Ok(_) => Ok(()),
        Err(_) => Err(RpcErrorKind::Internal),
    }
}

} // verus!
