//! Decisions of the bidirectional terminal stream.
//!
//! An attachment turns an RPC stream into a session's I/O: an output pump
//! relays hub messages to the client, an input pump dispatches client
//! messages to the session. The pumps themselves run on the transport;
//! these functions make every decision they need: who may attach, what
//! each inbound message does, and what each receive outcome emits.

use crate::api::RpcErrorKind;
use crate::hub::{HubReceiver, Received};
use crate::manager::SessionManager;
use vstd::prelude::*;

verus! {

/// A terminal resize request.
#[derive(Debug, Clone, Copy, PartialEq, Eq, Structural)]
pub struct TerminalResize {
    pub cols: u32,
    pub rows: u32,
}

/// One inbound message's payload.
#[derive(Debug)]
pub enum InputPayload {
    /// Keystrokes for the shell.
    Data(Vec<u8>),
    /// New terminal dimensions.
    Resize(TerminalResize),
    /// An uploaded file; accepted but not acted upon yet.
    File { filename: String, data: Vec<u8> },
}

/// One outbound message's payload.
#[derive(Debug)]
pub enum OutputPayload {
    /// Session output bytes.
    Data(Vec<u8>),
    /// A terminal error report.
    Error { code: String, message: String },
}

/// What one pump step decided: possibly a message to emit, and whether the
/// attachment ends.
pub struct PumpDecision {
    pub output: Option<OutputPayload>,
    pub stop: bool,
}

/// The attach handshake: the session must be live in this process and the
/// caller must own it. On success the caller gets a live subscription
/// starting at the stream's current tail.
pub fn authorize_terminal_attach(mgr: &SessionManager, session_id: u128, user_id: u128) -> (r:
    Result<HubReceiver, RpcErrorKind>)
    requires
        mgr.wf(),
    ensures
        !mgr.has_active(session_id) ==> r == Err::<HubReceiver, RpcErrorKind>(
            RpcErrorKind::NotFound,
        ),
        mgr.has_active(session_id) && mgr.active_of(session_id).user_id != user_id ==> r
            == Err::<HubReceiver, RpcErrorKind>(RpcErrorKind::PermissionDenied),
        r is Ok <==> (mgr.has_active(session_id) && mgr.active_of(session_id).user_id
            == user_id),
        match r {
            Ok(rx) => {
                &&& rx.valid_for(mgr.active_of(session_id).hub)
                &&& rx.start == mgr.active_of(session_id).hub.history@.len()
                &&& rx.cursor == rx.start
                &&& rx.lagged == 0
                &&& rx.delivered@ == Seq::<Seq<u8>>::empty()
            },
            Err(e) => e is NotFound || e is PermissionDenied,
        },
{
    let i = match mgr.get_session(session_id) {
        None => {
            return Err(RpcErrorKind::NotFound);
        },
        Some(i) => i,
    };
    proof {
        mgr.lemma_active_index_unique(session_id, i as int);
    }
    if mgr.registry[i].user_id != user_id {
        return Err(RpcErrorKind::PermissionDenied);
    }
    Ok(mgr.registry[i].subscribe())
}

/// Dispatch one inbound message. Data goes to the session's channel; a
/// send failure emits a terminal error and ends the attachment. A resize
/// is forwarded and its failure tolerated. A file upload and an empty
/// payload do nothing. Ending the attachment never closes the session.
pub fn handle_terminal_input(
    mgr: &mut SessionManager,
    session_id: u128,
    payload: Option<InputPayload>,
) -> (r: PumpDecision)
    requires
        old(mgr).wf(),
    ensures
        final(mgr).wf(),
        final(mgr).store == old(mgr).store,
        final(mgr).registry@.len() == old(mgr).registry@.len(),
        match payload {
            Some(InputPayload::Data(data)) => {
                &&& (r.stop <==> !(old(mgr).has_active(session_id)
                    && old(mgr).active_of(session_id).channel.open))
                &&& (!r.stop ==> r.output is None && final(mgr).has_active(session_id)
                    && final(mgr).active_of(session_id).channel.open
                    && final(mgr).active_of(session_id).channel.sent_v()
                    == old(mgr).active_of(session_id).channel.sent_v().push(data@))
                &&& (r.stop ==> *final(mgr) == *old(mgr) && (r.output matches Some(
                    OutputPayload::Error { code, message }
                ) && code@ == "SSH_ERROR"@))
            },
            Some(InputPayload::Resize(dims)) => {
                &&& !r.stop
                &&& r.output is None
                &&& (old(mgr).has_active(session_id)
                    && old(mgr).active_of(session_id).channel.open ==> final(mgr).has_active(
                    session_id,
                ) && final(mgr).active_of(session_id).channel.open && final(mgr).active_of(
                    session_id,
                ).channel.cols == dims.cols && final(mgr).active_of(session_id).channel.rows
                    == dims.rows)
                &&& (!(old(mgr).has_active(session_id)
                    && old(mgr).active_of(session_id).channel.open) ==> *final(mgr) == *old(
                    mgr,
                ))
            },
            Some(InputPayload::File { .. }) => !r.stop && r.output is None && *final(mgr)
                == *old(mgr),
            None => !r.stop && r.output is None && *final(mgr) == *old(mgr),
        },
{
    match payload {
        Some(InputPayload::Data(data)) => {
            match mgr.send_to_session(session_id, data.as_slice()) {
                Ok(_) => PumpDecision { output: None, stop: false },
                Err(_) => PumpDecision {
                    output: Some(
                        OutputPayload::Error {
                            code: "SSH_ERROR".to_owned(),
                            message: "failed to send input".to_owned(),
                        },
                    ),
                    stop: true,
                },
            }
        },
        Some(InputPayload::Resize(dims)) => {
            let _tolerated = mgr.resize_session(session_id, dims.cols, dims.rows);
            PumpDecision { output: None, stop: false }
        },
        Some(InputPayload::File { .. }) => PumpDecision { output: None, stop: false },
        None => PumpDecision { output: None, stop: false },
    }
}

/// Turn one receive outcome into the output pump's decision: data is
/// relayed, lag is tolerated without retransmission, a closed hub ends the
/// pump, and an idle hub means wait.
pub fn relay_output(step: Received) -> (r: PumpDecision)
    ensures
        match step {
            Received::Data(m) => !r.stop && (r.output matches Some(OutputPayload::Data(out))
                && out@ == m@),
            Received::Lagged(_) => !r.stop && r.output is None,
            Received::Closed => r.stop && r.output is None,
            Received::Pending => !r.stop && r.output is None,
        },
{
    match step {
        Received::Data(m) => PumpDecision { output: Some(OutputPayload::Data(m)), stop: false },
        Received::Lagged(_) => PumpDecision { output: None, stop: false },
        Received::Closed => PumpDecision { output: None, stop: true },
        Received::Pending => PumpDecision { output: None, stop: false },
    }
}

} // verus!
