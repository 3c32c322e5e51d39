//! The client side: the local history replica, the outbound request
//! queue, and the connection's phase machine.
//!
//! The connection task drains `outbound` to the socket and applies every
//! decoded [`ServerMessage`] to the state; the UI reads the state and
//! submits commands through [`WeaverState::run_command`].  Request ids are
//! assigned here: the counter starts at 0 and each submission takes the
//! next id, so the ids on successive requests are strictly increasing from
//! 1 ([`lemma_request_ids_strictly_increase`]).

use vstd::prelude::*;

use crate::history::CommandHistory;
use crate::history::CommandHistoryV;
use crate::history::apply_notice;
use crate::messages::ClientMessage;
use crate::messages::ClientMessageV;
use crate::messages::ClientRequest;
use crate::messages::ClientRequestV;
use crate::messages::ServerMessage;
use crate::messages::ServerNoticeV;

verus! {

/// What the connection hands the embedding UI: either a raw server
/// message, or word that the local state has changed under it.
#[derive(Debug, PartialEq)]
pub enum WeaverNotification {
    Updated,
    Server(ServerMessage),
}

/// Spec-level mirror of [`WeaverState`].
#[verifier::ext_equal]
pub ghost struct WeaverStateV {
    pub command_history: CommandHistoryV,
    pub outbound: Seq<ClientMessageV>,
    pub msgcounter: u32,
}

impl WeaverStateV {
    /// Well-formed: the replica is well-formed, and the queued requests
    /// carry strictly increasing ids, all at least 1 and none beyond the
    /// counter.
    pub open spec fn wf(self) -> bool {
        &&& self.command_history.wf()
        &&& forall|i: int|
            0 <= i < self.outbound.len() ==> 1 <= (#[trigger] self.outbound[i]).id
                <= self.msgcounter
        &&& forall|i: int, j: int|
            0 <= i < j < self.outbound.len() ==> (#[trigger] self.outbound[i]).id < (
            #[trigger] self.outbound[j]).id
    }
}

/// The client's local state: the history replica, the queue of requests
/// not yet written to the socket, and the request-id counter.
pub struct WeaverState {
    pub command_history: CommandHistory,
    pub outbound: Vec<ClientMessage>,
    msgcounter: u32,
}

impl View for WeaverState {
    type V = WeaverStateV;

    closed spec fn view(&self) -> WeaverStateV {
        WeaverStateV {
            command_history: self.command_history@,
            outbound: self.outbound@.map_values(|m: ClientMessage| m@),
            msgcounter: self.msgcounter,
        }
    }
}

impl WeaverState {
    /// A fresh client state: empty replica, empty queue, counter at 0 so
    /// the first request gets id 1.
    pub fn new() -> (res: Self)
        ensures
            res@.command_history.commands =~= Seq::empty(),
            res@.outbound =~= Seq::<ClientMessageV>::empty(),
            res@.msgcounter == 0,
            res@.wf(),
    {
        let res = WeaverState {
            command_history: CommandHistory::new(),
            outbound: Vec::new(),
            msgcounter: 0,
        };
        proof {
            assert(res@.outbound =~= Seq::<ClientMessageV>::empty());
        }
        res
    }

    /// Takes the next request id and queues the request behind every
    /// earlier one.
    pub fn send_request(&mut self, request: ClientRequest)
        requires
            old(self)@.wf(),
            old(self)@.msgcounter < u32::MAX,
        ensures
            final(self)@.wf(),
            final(self)@.msgcounter == old(self)@.msgcounter + 1,
            final(self)@.outbound =~= old(self)@.outbound.push(
                ClientMessageV { id: (old(self)@.msgcounter + 1) as u32, request: request@ },
            ),
            final(self)@.command_history == old(self)@.command_history,
    {
        self.msgcounter = self.msgcounter + 1;
        let id = self.msgcounter;
        let msg = ClientMessage { id, request };
        self.outbound.push(msg);
        proof {
            assert(self@.outbound =~= old(self)@.outbound.push(
                ClientMessageV { id, request: request@ },
            ));
        }
    }

    /// Queues a `RunCommand` request for `cmd`.
    pub fn run_command(&mut self, cmd: String)
        requires
            old(self)@.wf(),
            old(self)@.msgcounter < u32::MAX,
        ensures
            final(self)@.wf(),
            final(self)@.msgcounter == old(self)@.msgcounter + 1,
            final(self)@.outbound =~= old(self)@.outbound.push(
                ClientMessageV {
                    id: (old(self)@.msgcounter + 1) as u32,
                    request: ClientRequestV::RunCommand(cmd@),
                },
            ),
            final(self)@.command_history == old(self)@.command_history,
    {
        self.send_request(ClientRequest::RunCommand(cmd));
    }

    /// How many requests have been submitted so far; the next one takes
    /// the id one above this.
    pub fn request_count(&self) -> (r: u32)
        ensures
            r == self@.msgcounter,
    {
        self.msgcounter
    }

    /// The request that the connection should write next, if any.
    pub fn peek_outbound(&self) -> (r: Option<&ClientMessage>)
        ensures
            match r {
                Some(m) => self@.outbound.len() > 0 && m@ == self@.outbound[0],
                None => self@.outbound.len() == 0,
            },
    {
        if self.outbound.len() > 0 {
            Some(&self.outbound[0])
        } else {
            None
        }
    }

    /// Drops the head of the queue once it has been written out.
    pub fn pop_outbound(&mut self) -> (r: ClientMessage)
        requires
            old(self)@.wf(),
            old(self)@.outbound.len() > 0,
        ensures
            final(self)@.wf(),
            r@ == old(self)@.outbound[0],
            final(self)@.outbound =~= old(self)@.outbound.drop_first(),
            final(self)@.command_history == old(self)@.command_history,
            final(self)@.msgcounter == old(self)@.msgcounter,
    {
        let r = self.outbound.remove(0);
        proof {
            assert(self@.outbound =~= old(self)@.outbound.drop_first());
        }
        r
    }

    /// Applies one received notice to the replica, as [`apply_notice`]
    /// describes, and reports that the state changed.
    pub fn do_update(&mut self, msg: ServerMessage) -> (r: Option<WeaverNotification>)
        requires
            old(self)@.wf(),
            msg@.notice matches ServerNoticeV::CommandOutput(i, _) ==> old(
                self,
            )@.command_history.contains_id(i),
            msg@.notice matches ServerNoticeV::CommandErr(i, _) ==> old(
                self,
            )@.command_history.contains_id(i),
            msg@.notice matches ServerNoticeV::CommandCompleted(i, _) ==> old(
                self,
            )@.command_history.contains_id(i),
        ensures
            final(self)@.wf(),
            final(self)@.command_history.as_map() =~= apply_notice(
                old(self)@.command_history.as_map(),
                msg@,
            ),
            final(self)@.outbound == old(self)@.outbound,
            final(self)@.msgcounter == old(self)@.msgcounter,
            r == Some(WeaverNotification::Updated),
    {
        self.command_history.do_update(msg);
        proof {
            assert(self@.outbound =~= old(self)@.outbound);
            assert(self@.msgcounter == old(self)@.msgcounter);
            assert(self@.command_history.wf());
        }
        Some(WeaverNotification::Updated)
    }
}

/// Request-id monotonicity: on one client, every queued request carries an
/// id of at least 1, and later requests carry strictly larger ids.
pub proof fn lemma_request_ids_strictly_increase(s: WeaverStateV, i: int, j: int)
    requires
        s.wf(),
        0 <= i < j < s.outbound.len(),
    ensures
        1 <= s.outbound[i].id,
        s.outbound[i].id < s.outbound[j].id,
{
}

/// The connection's phase machine.  `Pending` while the connect is in
/// flight, `Connected` once reader and writer are ready, `Failed` after a
/// connect or I/O error.  `Failed` is terminal: no transition leaves it.
#[derive(Debug, PartialEq, Eq, Structural, Clone, Copy)]
pub enum WeaverClientConnectionState {
    Pending,
    Connected,
    Failed,
}

impl WeaverClientConnectionState {
    /// The connect finished: reader and writer are usable.
    pub fn on_connect_ok(&mut self)
        requires
            *old(self) is Pending,
        ensures
            *final(self) is Connected,
    {
        *self = WeaverClientConnectionState::Connected;
    }

    /// The connect failed; this connection is done for.
    pub fn on_connect_err(&mut self)
        requires
            *old(self) is Pending,
        ensures
            *final(self) is Failed,
    {
        *self = WeaverClientConnectionState::Failed;
    }

    /// A fatal decode or I/O error on the established connection.
    pub fn on_fatal_error(&mut self)
        requires
            *old(self) is Connected,
        ensures
            *final(self) is Failed,
    {
        *self = WeaverClientConnectionState::Failed;
    }

    /// May traffic flow right now?
    pub fn is_connected(&self) -> (r: bool)
        ensures
            r == (*self is Connected),
    {
        match self {
            WeaverClientConnectionState::Connected => true,
            _ => false,
        }
    }
}

} // verus!
