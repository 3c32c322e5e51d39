//! The daemon core: the broker that owns the authoritative history,
//! assigns command and client ids, applies every notice to the history and
//! fans it out to each connected client's outbound queue.
//!
//! The surrounding process owns the sockets and the children; it calls
//! into this core with decoded requests and child events, writes out what
//! the per-client queues hold, and never touches the history itself.  The
//! core maintains, as verified invariants over the whole emitted stream
//! and over every per-client stream: a chunk or completion is only ever
//! preceded by the notice that introduced its command ([`mentions_are_introduced`]);
//! no command completes twice ([`at_most_one_completion`]); no chunk
//! follows a completion ([`no_chunks_after_completion`]); and replaying
//! any client's stream reproduces the daemon's history exactly
//! ([`stream_inv`]), which is what entitles every client to the same
//! replica.

use vstd::prelude::*;

use crate::history::CommandHistory;
use crate::history::apply_notice;
use crate::history::apply_notices;
use crate::history::lemma_map_of_pairs_dom;
use crate::history::map_of_pairs;
use crate::history::seq_has_id;
use crate::messages::ClientMessage;
use crate::messages::ClientRequest;
use crate::messages::CommandId;
use crate::messages::ServerMessage;
use crate::messages::ServerMessageV;
use crate::messages::ServerNotice;
use crate::messages::ServerNoticeV;
use crate::messages::WeaverCommandV;
use crate::messages::clone_command_pairs;
use vstd::utf8::decode_utf8;
use vstd::utf8::valid_utf8;

verus! {

/// Identifier of one client connection; assigned by the daemon, starting
/// at 1, never reused within a daemon lifetime.
pub type ClientID = u32;

// ---------------------------------------------------------------------
// Notice-stream predicates.
// ---------------------------------------------------------------------

/// Does the notice speak about command `i` at all?
pub open spec fn notice_mentions(n: ServerNoticeV, i: CommandId) -> bool {
    match n {
        ServerNoticeV::CommandsBulk(l) => seq_has_id(l, i),
        ServerNoticeV::CommandStarted(j, _) => j == i,
        ServerNoticeV::CommandOutput(j, _) => j == i,
        ServerNoticeV::CommandErr(j, _) => j == i,
        ServerNoticeV::CommandCompleted(j, _) => j == i,
    }
}

/// Does the notice introduce command `i`: a `CommandStarted` for it, or a
/// bulk snapshot containing it?
pub open spec fn introduces(n: ServerNoticeV, i: CommandId) -> bool {
    match n {
        ServerNoticeV::CommandsBulk(l) => seq_has_id(l, i),
        ServerNoticeV::CommandStarted(j, _) => j == i,
        _ => false,
    }
}

/// Is the notice the completion of command `i`?
pub open spec fn is_completed_for(n: ServerNoticeV, i: CommandId) -> bool {
    n matches ServerNoticeV::CommandCompleted(j, _) && j == i
}

/// Is the notice the start of command `i`?
pub open spec fn is_started_for(n: ServerNoticeV, i: CommandId) -> bool {
    n matches ServerNoticeV::CommandStarted(j, _) && j == i
}

/// Is the notice an output or error chunk for command `i`?
pub open spec fn is_chunk_for(n: ServerNoticeV, i: CommandId) -> bool {
    ||| (n matches ServerNoticeV::CommandOutput(j, _) && j == i)
    ||| (n matches ServerNoticeV::CommandErr(j, _) && j == i)
}

/// Does some notice of the stream complete command `i`?
pub open spec fn has_completion(s: Seq<ServerMessageV>, i: CommandId) -> bool {
    exists|a: int| 0 <= a < s.len() && #[trigger] is_completed_for(s[a].notice, i)
}

/// Does some notice of the stream introduce command `i`?
pub open spec fn stream_introduces(s: Seq<ServerMessageV>, i: CommandId) -> bool {
    exists|a: int| 0 <= a < s.len() && #[trigger] introduces(s[a].notice, i)
}

/// Does some notice at or before position `b` introduce command `i`?
pub open spec fn introduced_by(s: Seq<ServerMessageV>, b: int, i: CommandId) -> bool {
    exists|a: int| 0 <= a <= b && #[trigger] introduces(s[a].notice, i)
}

/// Every command a notice mentions was introduced at or before that
/// notice: the first notice mentioning a command is a `CommandStarted` for
/// it or a bulk snapshot containing it.
pub open spec fn mentions_are_introduced(s: Seq<ServerMessageV>) -> bool {
    forall|b: int, i: CommandId|
        0 <= b < s.len() && #[trigger] notice_mentions(s[b].notice, i) ==> introduced_by(s, b, i)
}

/// No command id is started twice: ids are never reused.
pub open spec fn at_most_one_start(s: Seq<ServerMessageV>) -> bool {
    forall|a: int, b: int, i: CommandId|
        #![trigger is_started_for(s[a].notice, i), is_started_for(s[b].notice, i)]
        0 <= a < b < s.len() && is_started_for(s[a].notice, i) ==> !is_started_for(s[b].notice, i)
}

/// No command is completed twice.
pub open spec fn at_most_one_completion(s: Seq<ServerMessageV>) -> bool {
    forall|a: int, b: int, i: CommandId|
        #![trigger is_completed_for(s[a].notice, i), is_completed_for(s[b].notice, i)]
        0 <= a < b < s.len() && is_completed_for(s[a].notice, i) ==> !is_completed_for(
            s[b].notice,
            i,
        )
}

/// No output or error chunk for a command follows its completion.
pub open spec fn no_chunks_after_completion(s: Seq<ServerMessageV>) -> bool {
    forall|a: int, b: int, i: CommandId|
        #![trigger is_completed_for(s[a].notice, i), is_chunk_for(s[b].notice, i)]
        0 <= a < b < s.len() && is_completed_for(s[a].notice, i) ==> !is_chunk_for(s[b].notice, i)
}

/// Replaying a stream into an empty history.
pub open spec fn replay(s: Seq<ServerMessageV>) -> Map<CommandId, WeaverCommandV> {
    apply_notices(Map::<CommandId, WeaverCommandV>::empty(), s)
}

/// Everything that ties a delivered stream to the history `m` it stands
/// for: the stream replays to exactly `m`; every command of `m` is
/// introduced somewhere; a completed command of the stream has its status
/// recorded in `m`; and the ordering invariants hold.
pub open spec fn stream_inv(m: Map<CommandId, WeaverCommandV>, s: Seq<ServerMessageV>) -> bool {
    &&& replay(s) == m
    &&& forall|i: CommandId| #[trigger] m.dom().contains(i) ==> stream_introduces(s, i)
    &&& forall|i: CommandId| #[trigger] stream_introduces(s, i) ==> m.dom().contains(i)
    &&& forall|i: CommandId| #[trigger]
        has_completion(s, i) ==> m.dom().contains(i) && m[i].status is Some
    &&& mentions_are_introduced(s)
    &&& at_most_one_start(s)
    &&& at_most_one_completion(s)
    &&& no_chunks_after_completion(s)
}

/// When the broker may broadcast a notice against history `m`: fresh
/// commands start, and chunks or completions only reach commands that are
/// present and still running.  A bulk snapshot is never broadcast; it goes
/// to one newly registered client alone.
pub open spec fn broadcast_ok(m: Map<CommandId, WeaverCommandV>, msg: ServerMessageV) -> bool {
    match msg.notice {
        ServerNoticeV::CommandsBulk(_) => false,
        ServerNoticeV::CommandStarted(i, _) => !m.dom().contains(i),
        ServerNoticeV::CommandOutput(i, _) => m.dom().contains(i) && m[i].status is None,
        ServerNoticeV::CommandErr(i, _) => m.dom().contains(i) && m[i].status is None,
        ServerNoticeV::CommandCompleted(i, _) => m.dom().contains(i) && m[i].status is None,
    }
}

// ---------------------------------------------------------------------
// Preservation lemmas.
// ---------------------------------------------------------------------

/// Folding one more notice.
pub proof fn lemma_apply_notices_push(
    m: Map<CommandId, WeaverCommandV>,
    s: Seq<ServerMessageV>,
    x: ServerMessageV,
)
    ensures
        apply_notices(m, s.push(x)) == apply_notice(apply_notices(m, s), x),
{
    assert(s.push(x).drop_last() =~= s);
    assert(s.push(x).last() == x);
}

/// An introduction is itself a mention.
pub proof fn lemma_introduces_mentions(n: ServerNoticeV, i: CommandId)
    ensures
        introduces(n, i) ==> notice_mentions(n, i),
{
}

/// Appending a broadcastable notice to a stream keeps every stream
/// invariant, now tied to the updated history.
pub proof fn lemma_stream_inv_push(
    m0: Map<CommandId, WeaverCommandV>,
    s: Seq<ServerMessageV>,
    msg: ServerMessageV,
)
    requires
        stream_inv(m0, s),
        broadcast_ok(m0, msg),
    ensures
        stream_inv(apply_notice(m0, msg), s.push(msg)),
{
    let m1 = apply_notice(m0, msg);
    let t = s.push(msg);
    let n = s.len() as int;
    lemma_apply_notices_push(Map::<CommandId, WeaverCommandV>::empty(), s, msg);
    assert(forall|a: int| 0 <= a < n ==> t[a] == s[a]);
    assert(t[n] == msg);

    // Every command of the new history is introduced somewhere.
    assert forall|i: CommandId| #[trigger] m1.dom().contains(i) implies stream_introduces(t, i) by {
        if introduces(msg.notice, i) {
            assert(introduces(t[n].notice, i));
        } else {
            assert(m0.dom().contains(i));
            let a = choose|a: int| 0 <= a < s.len() && #[trigger] introduces(s[a].notice, i);
            assert(introduces(t[a].notice, i));
        }
    }

    // Every introduction in the new stream puts its command in the new
    // history.
    assert forall|i: CommandId| #[trigger] stream_introduces(t, i) implies m1.dom().contains(
        i,
    ) by {
        let a = choose|a: int| 0 <= a < t.len() && #[trigger] introduces(t[a].notice, i);
        if a < n {
            assert(introduces(s[a].notice, i));
            assert(stream_introduces(s, i));
            assert(m0.dom().contains(i));
        } else {
            match msg.notice {
                ServerNoticeV::CommandStarted(j, _) => {
                    assert(i == j);
                },
                _ => {
                    assert(!introduces(msg.notice, i));
                },
            }
        }
    }

    // No command id is started twice.
    assert forall|a: int, b: int, i: CommandId|
        0 <= a < b < t.len() && #[trigger] is_started_for(t[a].notice, i) implies !(
    #[trigger] is_started_for(t[b].notice, i)) by {
        if b < n {
        } else {
            if is_started_for(msg.notice, i) {
                assert(introduces(s[a].notice, i));
                assert(stream_introduces(s, i));
                assert(m0.dom().contains(i));
            }
        }
    }

    // A completion in the new stream is recorded in the new history.
    assert forall|i: CommandId| #[trigger] has_completion(t, i) implies m1.dom().contains(i)
        && m1[i].status is Some by {
        let a = choose|a: int| 0 <= a < t.len() && #[trigger] is_completed_for(t[a].notice, i);
        if a < n {
            assert(is_completed_for(s[a].notice, i));
            assert(has_completion(s, i));
            assert(m0.dom().contains(i) && m0[i].status is Some);
            match msg.notice {
                ServerNoticeV::CommandStarted(j, _) => {
                    assert(j != i);
                    assert(m1[i] == m0[i]);
                },
                ServerNoticeV::CommandOutput(j, _) => {
                    assert(m1[i].status == m0[i].status);
                },
                ServerNoticeV::CommandErr(j, _) => {
                    assert(m1[i].status == m0[i].status);
                },
                ServerNoticeV::CommandCompleted(j, c) => {
                    if i == j {
                        assert(m1[i].status == Some(c));
                    } else {
                        assert(m1[i] == m0[i]);
                    }
                },
                ServerNoticeV::CommandsBulk(_) => {},
            }
        } else {
            match msg.notice {
                ServerNoticeV::CommandCompleted(j, c) => {
                    assert(i == j);
                    assert(m1[i].status == Some(c));
                },
                _ => {
                    assert(!is_completed_for(msg.notice, i));
                },
            }
        }
    }

    // Every mention in the new stream is introduced at or before it.
    assert forall|b: int, i: CommandId|
        0 <= b < t.len() && #[trigger] notice_mentions(t[b].notice, i) implies introduced_by(
        t,
        b,
        i,
    ) by {
        if b < n {
            assert(notice_mentions(s[b].notice, i));
            let a = choose|a: int| 0 <= a <= b && #[trigger] introduces(s[a].notice, i);
            assert(introduces(t[a].notice, i));
        } else {
            if introduces(msg.notice, i) {
                assert(introduces(t[b].notice, i));
            } else {
                match msg.notice {
                    ServerNoticeV::CommandOutput(j, _) => {
                        assert(i == j && m0.dom().contains(i));
                    },
                    ServerNoticeV::CommandErr(j, _) => {
                        assert(i == j && m0.dom().contains(i));
                    },
                    ServerNoticeV::CommandCompleted(j, _) => {
                        assert(i == j && m0.dom().contains(i));
                    },
                    _ => {},
                }
                assert(stream_introduces(s, i));
                let a = choose|a: int| 0 <= a < s.len() && #[trigger] introduces(s[a].notice, i);
                assert(introduces(t[a].notice, i));
            }
        }
    }

    // No second completion for any command.
    assert forall|a: int, b: int, i: CommandId|
        0 <= a < b < t.len() && #[trigger] is_completed_for(t[a].notice, i) implies !(
    #[trigger] is_completed_for(t[b].notice, i)) by {
        if b < n {
        } else {
            if is_completed_for(msg.notice, i) {
                assert(is_completed_for(s[a].notice, i));
                assert(has_completion(s, i));
                assert(m0[i].status is Some);
                assert(!(m0[i].status is None));
            }
        }
    }

    // No chunk after a completion.
    assert forall|a: int, b: int, i: CommandId|
        0 <= a < b < t.len() && #[trigger] is_completed_for(t[a].notice, i) implies !(
    #[trigger] is_chunk_for(t[b].notice, i)) by {
        if b < n {
        } else {
            if is_chunk_for(msg.notice, i) {
                assert(is_completed_for(s[a].notice, i));
                assert(has_completion(s, i));
                assert(m0[i].status is Some);
            }
        }
    }
}

/// The one-element stream holding a bulk snapshot of history `m` ties a
/// fresh client to `m`.
pub proof fn lemma_stream_inv_snapshot(
    m: Map<CommandId, WeaverCommandV>,
    l: Seq<(CommandId, WeaverCommandV)>,
    bulk: ServerMessageV,
)
    requires
        bulk.notice == ServerNoticeV::CommandsBulk(l),
        map_of_pairs(l) == m,
    ensures
        stream_inv(m, seq![bulk]),
{
    let s = seq![bulk];
    assert(s.drop_last() =~= Seq::<ServerMessageV>::empty());
    assert(s.last() == bulk);
    assert(replay(s) =~= m) by {
        assert(apply_notices(Map::<CommandId, WeaverCommandV>::empty(), s.drop_last())
            =~= Map::<CommandId, WeaverCommandV>::empty());
    }
    lemma_map_of_pairs_dom(l);
    assert forall|i: CommandId| #[trigger] m.dom().contains(i) implies stream_introduces(s, i) by {
        assert(introduces(s[0].notice, i));
    }
    assert forall|i: CommandId| #[trigger] stream_introduces(s, i) implies m.dom().contains(i) by {
        let a = choose|a: int| 0 <= a < s.len() && #[trigger] introduces(s[a].notice, i);
        assert(a == 0);
        assert(seq_has_id(l, i));
    }
    assert forall|i: CommandId| #[trigger] has_completion(s, i) implies m.dom().contains(i)
        && m[i].status is Some by {
        let a = choose|a: int| 0 <= a < s.len() && #[trigger] is_completed_for(s[a].notice, i);
        assert(a == 0);
        assert(!is_completed_for(bulk.notice, i));
    }
    assert forall|b: int, i: CommandId|
        0 <= b < s.len() && #[trigger] notice_mentions(s[b].notice, i) implies introduced_by(
        s,
        b,
        i,
    ) by {
        assert(introduces(s[0].notice, i));
    }
}

// ---------------------------------------------------------------------
// The daemon's state.
// ---------------------------------------------------------------------

/// One connected client's outbound side: its id, the queue of notices not
/// yet written to its socket, and (as ghost bookkeeping) everything that
/// has already been written.  The concatenation of the two is the stream
/// this client observes.
pub struct ClientChannel {
    pub id: ClientID,
    pub queue: Vec<ServerMessage>,
    pub sent: Ghost<Seq<ServerMessageV>>,
    pub joined_at: Ghost<int>,
}

impl ClientChannel {
    /// The views of the queued notices.
    pub open spec fn queue_views(self) -> Seq<ServerMessageV> {
        self.queue@.map_values(|m: ServerMessage| m@)
    }

    /// Everything this client has been or will be shown, in order.
    pub open spec fn stream(self) -> Seq<ServerMessageV> {
        self.sent@ + self.queue_views()
    }
}

/// How a client's stream relates to the broker's emitted stream: it opens
/// with the bulk snapshot taken when the client registered, followed by
/// exactly the notices emitted from that moment on, in emission order.
pub open spec fn channel_since(e: Seq<ServerMessageV>, c: ClientChannel) -> bool {
    &&& 0 <= c.joined_at@ <= e.len()
    &&& c.stream().len() >= 1
    &&& c.stream()[0].notice is CommandsBulk
    &&& c.stream().skip(1) == e.skip(c.joined_at@)
}

/// The shared daemon state: the authoritative history and the table of
/// connected clients' outbound queues.
pub struct ServerState {
    pub channels: Vec<ClientChannel>,
    pub command_history: CommandHistory,
}

impl ServerState {
    /// Empty history, no clients.
    pub fn new() -> (r: Self)
        ensures
            r.channels@.len() == 0,
            r.command_history@.commands =~= Seq::empty(),
            r.command_history@.next_index == 1,
    {
        ServerState { channels: Vec::new(), command_history: CommandHistory::new() }
    }
}

/// Is some channel registered under `id`?
pub open spec fn has_channel(s: Seq<ClientChannel>, id: ClientID) -> bool {
    exists|k: int| 0 <= k < s.len() && (#[trigger] s[k]).id == id
}

/// One running command's identity: which request started it and which
/// command id the daemon assigned it.  The process itself lives outside;
/// its reader hands chunks and the exit status back through
/// [`WeaverServer::child_output`] and friends.
pub struct RunningCommand {
    pub request_id: u32,
    pub command_id: CommandId,
}

impl RunningCommand {
    pub fn new(request_id: u32, command_id: CommandId) -> (r: Self)
        ensures
            r.request_id == request_id,
            r.command_id == command_id,
    {
        RunningCommand { request_id, command_id }
    }
}

/// The broker core.  All notice production goes through it, so the stream
/// invariants it maintains hold of everything any client is sent.
pub struct WeaverServer {
    pub state: ServerState,
    pub next_client_id: ClientID,
    pub emitted: Ghost<Seq<ServerMessageV>>,
}

impl WeaverServer {
    pub open spec fn history(self) -> crate::history::CommandHistoryV {
        self.state.command_history@
    }

    /// The authoritative history as a map.
    pub open spec fn hmap(self) -> Map<CommandId, WeaverCommandV> {
        self.history().as_map()
    }

    pub open spec fn channels(self) -> Seq<ClientChannel> {
        self.state.channels@
    }

    /// The broker's invariant: the history is sorted with ids below the
    /// fresh-id counter; the emitted stream and every client's stream
    /// satisfy [`stream_inv`] against the history; client ids are unique
    /// and below the fresh-client counter.
    pub open spec fn wf(self) -> bool {
        &&& self.history().wf()
        &&& 1 <= self.history().next_index
        &&& forall|i: CommandId| #[trigger]
            self.hmap().dom().contains(i) ==> 1 <= i < self.history().next_index
        &&& stream_inv(self.hmap(), self.emitted@)
        &&& 1 <= self.next_client_id
        &&& forall|a: int, b: int|
            0 <= a < b < self.channels().len() ==> (#[trigger] self.channels()[a]).id != (
            #[trigger] self.channels()[b]).id
        &&& forall|k: int|
            0 <= k < self.channels().len() ==> 1 <= (#[trigger] self.channels()[k]).id
                < self.next_client_id
        &&& forall|k: int|
            0 <= k < self.channels().len() ==> stream_inv(
                self.hmap(),
                (#[trigger] self.channels()[k]).stream(),
            )
        &&& forall|k: int|
            0 <= k < self.channels().len() ==> channel_since(
                self.emitted@,
                #[trigger] self.channels()[k],
            )
    }

    /// A fresh daemon: empty history, no clients, nothing emitted.
    pub fn new() -> (r: Self)
        ensures
            r.wf(),
            r.emitted@ =~= Seq::<ServerMessageV>::empty(),
            r.channels().len() == 0,
            r.history().commands =~= Seq::empty(),
            r.history().next_index == 1,
            r.next_client_id == 1,
    {
        let r = WeaverServer {
            state: ServerState::new(),
            next_client_id: 1,
            emitted: Ghost(Seq::empty()),
        };
        proof {
            assert(r.hmap() =~= Map::<CommandId, WeaverCommandV>::empty());
            assert(replay(r.emitted@) =~= r.hmap());
        }
        r
    }

    /// Applies one notice to the history and appends it to every client's
    /// queue: the broker's critical section.
    fn broadcast(&mut self, msg: &ServerMessage)
        requires
            old(self).wf(),
            broadcast_ok(old(self).hmap(), msg@),
            msg@.notice matches ServerNoticeV::CommandStarted(i, _) ==> 1 <= i < old(
                self,
            ).history().next_index,
        ensures
            final(self).wf(),
            final(self).emitted@ == old(self).emitted@.push(msg@),
            final(self).hmap() =~= apply_notice(old(self).hmap(), msg@),
            final(self).history().next_index == old(self).history().next_index,
            final(self).next_client_id == old(self).next_client_id,
            final(self).channels().len() == old(self).channels().len(),
            forall|k: int|
                #![trigger final(self).channels()[k]]
                0 <= k < old(self).channels().len() ==> ({
                    let c0 = old(self).channels()[k];
                    let c1 = final(self).channels()[k];
                    &&& c1.id == c0.id
                    &&& c1.sent@ == c0.sent@
                    &&& c1.queue_views() == c0.queue_views().push(msg@)
                    &&& c1.stream() == c0.stream().push(msg@)
                }),
    {
        let ghost m0 = self.hmap();
        let ghost m1 = apply_notice(m0, msg@);
        let ghost ch0 = self.state.channels@;
        self.state.command_history.do_update(msg.clone());
        let ghost hv1 = self.state.command_history@;
        let mut k: usize = 0;
        while k < self.state.channels.len()
            invariant
                k <= ch0.len(),
                self.state.channels@.len() == ch0.len(),
                self.state.command_history@ == hv1,
                self.emitted@ == old(self).emitted@,
                self.next_client_id == old(self).next_client_id,
                forall|j: int|
                    #![trigger self.state.channels@[j]]
                    0 <= j < k ==> ({
                        let c0 = ch0[j];
                        let c1 = self.state.channels@[j];
                        &&& c1.id == c0.id
                        &&& c1.sent@ == c0.sent@
                        &&& c1.joined_at@ == c0.joined_at@
                        &&& c1.queue_views() == c0.queue_views().push(msg@)
                    }),
                forall|j: int| k <= j < ch0.len() ==> self.state.channels@[j] == ch0[j],
            decreases ch0.len() - k,
        {
            let ghost pre = self.state.channels@;
            let mut ch = self.state.channels.remove(k);
            let ghost chv = ch;
            ch.queue.push(msg.clone());
            self.state.channels.insert(k, ch);
            proof {
                assert(self.state.channels@ =~= pre.update(k as int, self.state.channels@[k as int]));
                assert(self.state.channels@[k as int].queue@ =~= chv.queue@.push(
                    self.state.channels@[k as int].queue@.last(),
                ));
                assert(self.state.channels@[k as int].queue_views() =~= chv.queue_views().push(
                    msg@,
                ));
            }
            k = k + 1;
        }
        proof {
            self.emitted@ = self.emitted@.push(msg@);
        }
        proof {
            // The emitted stream and each client's stream absorb the notice.
            lemma_stream_inv_push(m0, old(self).emitted@, msg@);
            assert forall|j: int|
                #![trigger self.state.channels@[j]]
                0 <= j < ch0.len() implies ({
                let c0 = ch0[j];
                let c1 = self.state.channels@[j];
                &&& c1.stream() == c0.stream().push(msg@)
                &&& stream_inv(m1, c1.stream())
                &&& channel_since(self.emitted@, c1)
            }) by {
                let c0 = ch0[j];
                let c1 = self.state.channels@[j];
                assert(c1.stream() =~= c0.stream().push(msg@));
                lemma_stream_inv_push(m0, c0.stream(), msg@);
                assert(ch0[j] == old(self).channels()[j]);
                assert(channel_since(old(self).emitted@, c0));
                assert(c1.stream()[0] == c0.stream()[0]);
                assert(c1.stream().skip(1) =~= c0.stream().skip(1).push(msg@));
                assert(self.emitted@.skip(c1.joined_at@) =~= old(self).emitted@.skip(
                    c0.joined_at@,
                ).push(msg@));
            }
            // Ids of the history stay below the fresh-id counter.
            assert forall|i: CommandId| #[trigger] m1.dom().contains(i) implies 1 <= i
                < hv1.next_index by {
                if !m0.dom().contains(i) {
                    match msg@.notice {
                        ServerNoticeV::CommandStarted(j, _) => {
                            assert(i == j);
                        },
                        _ => {
                            assert(m1.dom() =~= m0.dom());
                        },
                    }
                }
            }
            assert(self.hmap() =~= m1);
        }
    }

    /// Hands out the next client id, registers a fresh outbound queue for
    /// it, and puts a bulk snapshot of the current history at the front of
    /// that queue (and that queue alone).  The snapshot and the
    /// registration happen together, so nothing broadcast later can be
    /// missing from the new client's stream.
    pub fn accept_client(&mut self) -> (r: ClientID)
        requires
            old(self).wf(),
            old(self).next_client_id < ClientID::MAX,
        ensures
            final(self).wf(),
            r == old(self).next_client_id,
            final(self).next_client_id == old(self).next_client_id + 1,
            final(self).emitted@ == old(self).emitted@,
            final(self).state.command_history == old(self).state.command_history,
            final(self).channels().len() == old(self).channels().len() + 1,
            forall|k: int|
                0 <= k < old(self).channels().len() ==> final(self).channels()[k] == old(
                    self,
                ).channels()[k],
            ({
                let c = final(self).channels().last();
                &&& c.id == r
                &&& c.sent@ == Seq::<ServerMessageV>::empty()
                &&& c.queue_views() =~= seq![
                    ServerMessageV {
                        id: 0,
                        notice: ServerNoticeV::CommandsBulk(old(self).history().commands),
                    },
                ]
            }),
    {
        let id = self.next_client_id;
        self.next_client_id = self.next_client_id + 1;
        let snapshot = clone_command_pairs(&self.state.command_history.commands);
        let bulk = ServerMessage { id: 0, notice: ServerNotice::CommandsBulk(snapshot) };
        let ghost bulkv = bulk@;
        let mut queue: Vec<ServerMessage> = Vec::new();
        queue.push(bulk);
        let ch = ClientChannel {
            id,
            queue,
            sent: Ghost(Seq::empty()),
            joined_at: Ghost(self.emitted@.len() as int),
        };
        let ghost chv = ch;
        self.state.channels.push(ch);
        proof {
            assert(bulkv.notice == ServerNoticeV::CommandsBulk(self.history().commands));
            lemma_stream_inv_snapshot(self.hmap(), self.history().commands, bulkv);
            assert(chv.queue_views() =~= seq![bulkv]);
            assert(chv.stream() =~= seq![bulkv]);
            assert(self.state.channels@ =~= old(self).state.channels@.push(chv));
            assert(chv.stream().skip(1) =~= self.emitted@.skip(chv.joined_at@));
        }
        id
    }

    /// Unregisters the client's queue; started commands keep running and
    /// keep broadcasting to everyone else.
    pub fn remove_client(&mut self, client_id: ClientID) -> (removed: bool)
        requires
            old(self).wf(),
        ensures
            final(self).wf(),
            final(self).emitted@ == old(self).emitted@,
            final(self).state.command_history == old(self).state.command_history,
            final(self).next_client_id == old(self).next_client_id,
            !has_channel(final(self).channels(), client_id),
            removed ==> exists|k: int|
                0 <= k < old(self).channels().len() && (#[trigger] old(self).channels()[k]).id
                    == client_id && final(self).channels() == old(self).channels().remove(k),
            !removed ==> final(self).channels() == old(self).channels() && !has_channel(
                old(self).channels(),
                client_id,
            ),
    {
        let ghost ch0 = self.state.channels@;
        let mut k: usize = 0;
        while k < self.state.channels.len()
            invariant
                old(self).wf(),
                k <= ch0.len(),
                self.state.channels@ == ch0,
                self.state.command_history == old(self).state.command_history,
                self.emitted@ == old(self).emitted@,
                self.next_client_id == old(self).next_client_id,
                ch0 == old(self).state.channels@,
                forall|j: int| 0 <= j < k ==> (#[trigger] ch0[j]).id != client_id,
            decreases ch0.len() - k,
        {
            if self.state.channels[k].id == client_id {
                self.state.channels.remove(k);
                proof {
                    assert(old(self).channels()[k as int].id == client_id);
                    let m = self.hmap();
                    assert(m == old(self).hmap());
                    let new = self.state.channels@;
                    assert(new == ch0.remove(k as int));
                    assert forall|j: int| 0 <= j < new.len() implies ({
                        &&& stream_inv(m, (#[trigger] new[j]).stream())
                        &&& channel_since(self.emitted@, new[j])
                        &&& 1 <= new[j].id < self.next_client_id
                        &&& new[j].id != client_id
                    }) by {
                        let j0: int = if j < k { j } else { j + 1 };
                        assert(new[j] == ch0[j0]);
                        assert(new[j] == old(self).channels()[j0]);
                        assert(stream_inv(old(self).hmap(), old(self).channels()[j0].stream()));
                        assert(channel_since(old(self).emitted@, old(self).channels()[j0]));
                        if j0 != k {
                            assert(old(self).channels()[j0].id != old(self).channels()[
                                k as int
                            ].id) by {
                                if j0 < k {
                                    assert(0 <= j0 < k < ch0.len());
                                } else {
                                    assert(0 <= k < j0 < ch0.len());
                                }
                            }
                        }
                    }
                    assert forall|a: int, b: int| 0 <= a < b < new.len() implies (
                    #[trigger] new[a]).id != (#[trigger] new[b]).id by {
                        let a0: int = if a < k { a } else { a + 1 };
                        let b0: int = if b < k { b } else { b + 1 };
                        assert(new[a] == old(self).channels()[a0]);
                        assert(new[b] == old(self).channels()[b0]);
                        assert(0 <= a0 < b0 < ch0.len());
                    }
                }
                return true;
            }
            k = k + 1;
        }
        proof {
            assert(!has_channel(self.channels(), client_id));
            assert(self.hmap() == old(self).hmap());
            assert forall|kk: int| 0 <= kk < self.channels().len() implies stream_inv(
                self.hmap(),
                (#[trigger] self.channels()[kk]).stream(),
            ) && channel_since(self.emitted@, self.channels()[kk]) by {
                assert(self.channels()[kk] == old(self).channels()[kk]);
                assert(stream_inv(old(self).hmap(), old(self).channels()[kk].stream()));
                assert(channel_since(old(self).emitted@, old(self).channels()[kk]));
            }
            assert forall|a: int, b: int| 0 <= a < b < self.channels().len() implies (
            #[trigger] self.channels()[a]).id != (#[trigger] self.channels()[b]).id by {
                assert(self.channels()[a] == old(self).channels()[a]);
                assert(self.channels()[b] == old(self).channels()[b]);
            }
            assert forall|kk: int| 0 <= kk < self.channels().len() implies 1 <= (
            #[trigger] self.channels()[kk]).id < self.next_client_id by {
                assert(self.channels()[kk] == old(self).channels()[kk]);
            }
        }
        false
    }

    /// Handles one decoded client request.  `RunCommand` takes a fresh
    /// command id, broadcasts `CommandStarted` before the child can
    /// produce anything, and returns the identity the caller must give
    /// the child's reader.
    pub fn handle_client_message(&mut self, msg: ClientMessage) -> (r: RunningCommand)
        requires
            old(self).wf(),
            old(self).history().next_index < CommandId::MAX,
        ensures
            final(self).wf(),
            ({
                let cmd = match msg@.request { crate::messages::ClientRequestV::RunCommand(c) => c };
                let started = ServerMessageV {
                    id: msg@.id,
                    notice: ServerNoticeV::CommandStarted(old(self).history().next_index, cmd),
                };
                &&& r.request_id == msg@.id
                &&& r.command_id == old(self).history().next_index
                &&& final(self).emitted@ == old(self).emitted@.push(started)
                &&& final(self).hmap() =~= apply_notice(old(self).hmap(), started)
                &&& final(self).history().next_index == old(self).history().next_index + 1
                &&& final(self).next_client_id == old(self).next_client_id
                &&& final(self).channels().len() == old(self).channels().len()
                &&& forall|k: int|
                    0 <= k < old(self).channels().len() ==> ((
                    #[trigger] final(self).channels()[k]).stream() == old(
                        self,
                    ).channels()[k].stream().push(started) && final(self).channels()[k].id == old(
                        self,
                    ).channels()[k].id)
            }),
    {
        let req_id = msg.id;
        match msg.request {
            ClientRequest::RunCommand(c) => {
                let cmd_idx = self.state.command_history.next_index();
                let started = ServerMessage {
                    id: req_id,
                    notice: ServerNotice::CommandStarted(cmd_idx, c),
                };
                self.broadcast(&started);
                RunningCommand { request_id: req_id, command_id: cmd_idx }
            },
        }
    }

    /// A chunk arrived from a child's stdout.  Empty reads are never
    /// emitted; a chunk for an unknown or already-completed command is a
    /// broker fault and is dropped.  Otherwise the chunk is decoded as
    /// UTF-8 with lossy replacement and broadcast as `CommandOutput`.
    pub fn child_output(&mut self, rc: &RunningCommand, chunk: &Vec<u8>) -> (emitted: bool)
        requires
            old(self).wf(),
        ensures
            final(self).wf(),
            emitted == (chunk@.len() > 0 && old(self).hmap().dom().contains(rc.command_id) && old(
                self,
            ).hmap()[rc.command_id].status is None),
            emitted ==> broadcast_happened(
                *old(self),
                *final(self),
                ServerMessageV {
                    id: rc.request_id,
                    notice: ServerNoticeV::CommandOutput(rc.command_id, lossy_utf8(chunk@)),
                },
            ),
            !emitted ==> *final(self) == *old(self),
    {
        if chunk.len() == 0 {
            return false;
        }
        match self.state.command_history.get_status(rc.command_id) {
            Some(None) => {
                let text = lossy_string(chunk);
                let msg = ServerMessage {
                    id: rc.request_id,
                    notice: ServerNotice::CommandOutput(rc.command_id, text),
                };
                self.broadcast(&msg);
                true
            },
            _ => false,
        }
    }

    /// A chunk arrived from a child's stderr; as
    /// [`child_output`](Self::child_output), but broadcast as
    /// `CommandErr`.
    pub fn child_err(&mut self, rc: &RunningCommand, chunk: &Vec<u8>) -> (emitted: bool)
        requires
            old(self).wf(),
        ensures
            final(self).wf(),
            emitted == (chunk@.len() > 0 && old(self).hmap().dom().contains(rc.command_id) && old(
                self,
            ).hmap()[rc.command_id].status is None),
            emitted ==> broadcast_happened(
                *old(self),
                *final(self),
                ServerMessageV {
                    id: rc.request_id,
                    notice: ServerNoticeV::CommandErr(rc.command_id, lossy_utf8(chunk@)),
                },
            ),
            !emitted ==> *final(self) == *old(self),
    {
        if chunk.len() == 0 {
            return false;
        }
        match self.state.command_history.get_status(rc.command_id) {
            Some(None) => {
                let text = lossy_string(chunk);
                let msg = ServerMessage {
                    id: rc.request_id,
                    notice: ServerNotice::CommandErr(rc.command_id, text),
                };
                self.broadcast(&msg);
                true
            },
            _ => false,
        }
    }

    /// The child exited with `code` (a sentinel negative value stands for
    /// death by signal).  Broadcast `CommandCompleted` exactly once: a
    /// second exit report for the same command, or one for an unknown
    /// command, is dropped.
    pub fn child_exit(&mut self, rc: &RunningCommand, code: i32) -> (emitted: bool)
        requires
            old(self).wf(),
        ensures
            final(self).wf(),
            emitted == (old(self).hmap().dom().contains(rc.command_id) && old(self).hmap()[
                rc.command_id
            ].status is None),
            emitted ==> broadcast_happened(
                *old(self),
                *final(self),
                ServerMessageV {
                    id: rc.request_id,
                    notice: ServerNoticeV::CommandCompleted(rc.command_id, code),
                },
            ),
            emitted ==> final(self).hmap()[rc.command_id].status == Some(code),
            !emitted ==> *final(self) == *old(self),
    {
        match self.state.command_history.get_status(rc.command_id) {
            Some(None) => {
                let msg = ServerMessage {
                    id: rc.request_id,
                    notice: ServerNotice::CommandCompleted(rc.command_id, code),
                };
                self.broadcast(&msg);
                true
            },
            _ => false,
        }
    }

    /// The child could not be spawned at all: render the error into the
    /// command's stderr and complete it with a non-zero code, so the
    /// history stays consistent and the command still completes exactly
    /// once.
    pub fn child_spawn_failed(&mut self, rc: &RunningCommand, err: &Vec<u8>, code: i32)
        requires
            old(self).wf(),
            code != 0,
        ensures
            final(self).wf(),
            ({
                let eligible = old(self).hmap().dom().contains(rc.command_id) && old(self).hmap()[
                    rc.command_id
                ].status is None;
                let errmsg = ServerMessageV {
                    id: rc.request_id,
                    notice: ServerNoticeV::CommandErr(rc.command_id, lossy_utf8(err@)),
                };
                let donemsg = ServerMessageV {
                    id: rc.request_id,
                    notice: ServerNoticeV::CommandCompleted(rc.command_id, code),
                };
                &&& (eligible && err@.len() > 0 ==> ({
                    &&& final(self).emitted@ == old(self).emitted@.push(errmsg).push(donemsg)
                    &&& final(self).hmap() == apply_notice(
                        apply_notice(old(self).hmap(), errmsg),
                        donemsg,
                    )
                    &&& final(self).hmap()[rc.command_id].stderr == old(self).hmap()[
                        rc.command_id
                    ].stderr + lossy_utf8(err@)
                    &&& final(self).hmap()[rc.command_id].status == Some(code)
                    &&& final(self).channels().len() == old(self).channels().len()
                    &&& forall|k: int|
                        #![trigger final(self).channels()[k]]
                        0 <= k < old(self).channels().len() ==> ({
                            let c0 = old(self).channels()[k];
                            let c1 = final(self).channels()[k];
                            &&& c1.id == c0.id
                            &&& c1.stream() == c0.stream().push(errmsg).push(donemsg)
                        })
                }))
                &&& (eligible && err@.len() == 0 ==> broadcast_happened(
                    *old(self),
                    *final(self),
                    donemsg,
                ) && final(self).hmap()[rc.command_id].status == Some(code))
                &&& (!eligible ==> *final(self) == *old(self))
            }),
    {
        let ghost m0 = self.hmap();
        let emitted_err = self.child_err(rc, err);
        let ghost mid = *self;
        proof {
            if emitted_err {
                assert(mid.hmap()[rc.command_id].status is None);
            }
        }
        let emitted_done = self.child_exit(rc, code);
        proof {
            let eligible = m0.dom().contains(rc.command_id) && m0[rc.command_id].status is None;
            if eligible && err@.len() > 0 {
                let errmsg = ServerMessageV {
                    id: rc.request_id,
                    notice: ServerNoticeV::CommandErr(rc.command_id, lossy_utf8(err@)),
                };
                let donemsg = ServerMessageV {
                    id: rc.request_id,
                    notice: ServerNoticeV::CommandCompleted(rc.command_id, code),
                };
                assert(broadcast_happened(*old(self), mid, errmsg));
                assert(broadcast_happened(mid, *self, donemsg));
                assert forall|k: int|
                    #![trigger self.channels()[k]]
                    0 <= k < old(self).channels().len() implies ({
                    let c0 = old(self).channels()[k];
                    let c1 = self.channels()[k];
                    &&& c1.id == c0.id
                    &&& c1.stream() == c0.stream().push(errmsg).push(donemsg)
                }) by {
                    assert(mid.channels()[k].stream() == old(self).channels()[k].stream().push(
                        errmsg,
                    ));
                }
            }
        }
    }

    /// Takes the next notice to write to the given client's socket.  The
    /// head of that client's queue moves to its delivered (ghost) half, so
    /// the client's observed stream is unchanged, and no other client is
    /// touched.
    pub fn pop_client_queue(&mut self, client_id: ClientID) -> (r: Option<ServerMessage>)
        requires
            old(self).wf(),
        ensures
            final(self).wf(),
            final(self).emitted@ == old(self).emitted@,
            final(self).state.command_history == old(self).state.command_history,
            final(self).next_client_id == old(self).next_client_id,
            final(self).channels().len() == old(self).channels().len(),
            forall|j: int|
                #![trigger final(self).channels()[j]]
                0 <= j < old(self).channels().len() ==> final(self).channels()[j].id == old(
                    self,
                ).channels()[j].id && final(self).channels()[j].stream() == old(
                    self,
                ).channels()[j].stream(),
            match r {
                Some(m) => exists|k: int|
                    0 <= k < old(self).channels().len() && (#[trigger] old(self).channels()[k]).id
                        == client_id && old(self).channels()[k].queue@.len() > 0 && m == old(
                        self,
                    ).channels()[k].queue@[0] && final(self).channels()[k].queue@ == old(
                        self,
                    ).channels()[k].queue@.drop_first() && final(self).channels()[k].sent@ == old(
                        self,
                    ).channels()[k].sent@.push(m@) && (forall|j: int|
                        0 <= j < old(self).channels().len() && j != k
                            ==> #[trigger] final(self).channels()[j] == old(self).channels()[j]),
                None => final(self).channels() == old(self).channels() && (forall|j: int|
                    0 <= j < old(self).channels().len() && (#[trigger] old(self).channels()[
                        j
                    ]).id == client_id ==> old(self).channels()[j].queue@.len() == 0),
            },
    {
        let ghost ch0 = self.state.channels@;
        let mut k: usize = 0;
        while k < self.state.channels.len()
            invariant
                old(self).wf(),
                k <= ch0.len(),
                self.state.channels@ == ch0,
                self.state.command_history == old(self).state.command_history,
                self.emitted@ == old(self).emitted@,
                self.next_client_id == old(self).next_client_id,
                ch0 == old(self).state.channels@,
                forall|j: int| 0 <= j < k ==> (#[trigger] ch0[j]).id != client_id,
            decreases ch0.len() - k,
        {
            if self.state.channels[k].id == client_id {
                if self.state.channels[k].queue.len() == 0 {
                    proof {
                        assert forall|j: int|
                            0 <= j < old(self).channels().len() && (#[trigger] old(
                                self,
                            ).channels()[j]).id == client_id implies old(self).channels()[
                            j
                        ].queue@.len() == 0 by {
                            if j != k {
                                assert(old(self).channels()[j].id != old(self).channels()[
                                    k as int
                                ].id);
                            }
                        }
                    }
                    return None;
                }
                let ghost pre = self.state.channels@;
                let mut ch = self.state.channels.remove(k);
                let ghost chv = ch;
                let msg = ch.queue.remove(0);
                proof {
                    ch.sent@ = ch.sent@.push(msg@);
                }
                self.state.channels.insert(k, ch);
                proof {
                    let new = self.state.channels@;
                    assert(new =~= ch0.update(k as int, new[k as int]));
                    assert(new[k as int].queue_views() =~= chv.queue_views().drop_first());
                    assert(new[k as int].stream() =~= chv.stream());
                    assert forall|j: int|
                        #![trigger new[j]]
                        0 <= j < new.len() implies new[j].id == old(self).channels()[j].id
                        && new[j].stream() == old(self).channels()[j].stream() && stream_inv(
                        self.hmap(),
                        new[j].stream(),
                    ) && channel_since(self.emitted@, new[j]) by {
                        assert(old(self).channels()[j] == ch0[j]);
                        assert(stream_inv(old(self).hmap(), old(self).channels()[j].stream()));
                        assert(channel_since(old(self).emitted@, old(self).channels()[j]));
                        if j != k {
                            assert(new[j] == ch0[j]);
                        } else {
                            assert(new[j].joined_at@ == ch0[j].joined_at@);
                        }
                    }
                    assert forall|a: int, b: int| 0 <= a < b < new.len() implies (
                    #[trigger] new[a]).id != (#[trigger] new[b]).id by {
                        assert(old(self).channels()[a] == ch0[a]);
                        assert(old(self).channels()[b] == ch0[b]);
                    }
                    assert(self.hmap() == old(self).hmap());
                }
                return Some(msg);
            }
            k = k + 1;
        }
        proof {
            assert(self.hmap() == old(self).hmap());
            assert forall|kk: int| 0 <= kk < self.channels().len() implies stream_inv(
                self.hmap(),
                (#[trigger] self.channels()[kk]).stream(),
            ) && channel_since(self.emitted@, self.channels()[kk]) by {
                assert(self.channels()[kk] == old(self).channels()[kk]);
                assert(stream_inv(old(self).hmap(), old(self).channels()[kk].stream()));
                assert(channel_since(old(self).emitted@, old(self).channels()[kk]));
            }
        }
        None
    }
}

/// The shape of one broker step: the notice was appended to the emitted
/// stream and to every client's stream, and the history absorbed it.
pub open spec fn broadcast_happened(
    pre: WeaverServer,
    post: WeaverServer,
    msg: ServerMessageV,
) -> bool {
    &&& post.emitted@ == pre.emitted@.push(msg)
    &&& post.hmap() == apply_notice(pre.hmap(), msg)
    &&& post.history().next_index == pre.history().next_index
    &&& post.next_client_id == pre.next_client_id
    &&& post.channels().len() == pre.channels().len()
    &&& forall|k: int|
        #![trigger post.channels()[k]]
        0 <= k < pre.channels().len() ==> post.channels()[k].id == pre.channels()[k].id
            && post.channels()[k].stream() == pre.channels()[k].stream().push(msg)
}

// ---------------------------------------------------------------------
// The broker's guarantees, stated on their own.
// ---------------------------------------------------------------------

/// The first notice of a stream that mentions a command at all is a
/// `CommandStarted` for it or a bulk snapshot containing it.
pub proof fn lemma_first_mention_is_introduction(s: Seq<ServerMessageV>, b: int, i: CommandId)
    requires
        mentions_are_introduced(s),
        0 <= b < s.len(),
        notice_mentions(s[b].notice, i),
        forall|a: int| 0 <= a < b ==> !notice_mentions((#[trigger] s[a]).notice, i),
    ensures
        introduces(s[b].notice, i),
{
    let a = choose|a: int| 0 <= a <= b && #[trigger] introduces(s[a].notice, i);
    lemma_introduces_mentions(s[a].notice, i);
    assert(a == b);
}

/// What the broker guarantees of everything it has emitted: no command
/// completes twice, no chunk follows a completion, every mention is
/// preceded by an introduction, and the history is exactly the fold of
/// the emitted stream.
pub proof fn lemma_emitted_stream_properties(s: WeaverServer)
    requires
        s.wf(),
    ensures
        at_most_one_start(s.emitted@),
        at_most_one_completion(s.emitted@),
        no_chunks_after_completion(s.emitted@),
        mentions_are_introduced(s.emitted@),
        replay(s.emitted@) == s.hmap(),
{
}

/// What each connected client is guaranteed about the stream it observes
/// (delivered plus still queued, in order): the same three ordering
/// properties, and that replaying the stream into an empty replica yields
/// exactly the daemon's history.
pub proof fn lemma_client_stream_properties(s: WeaverServer, k: int)
    requires
        s.wf(),
        0 <= k < s.channels().len(),
    ensures
        at_most_one_start(s.channels()[k].stream()),
        at_most_one_completion(s.channels()[k].stream()),
        no_chunks_after_completion(s.channels()[k].stream()),
        mentions_are_introduced(s.channels()[k].stream()),
        replay(s.channels()[k].stream()) == s.hmap(),
{
}

/// Every connected client observes, after its opening snapshot, exactly
/// the notices the broker emitted since that client registered, in
/// emission order; a client connected throughout (registered before
/// anything was emitted, so over an empty snapshot) observes exactly the
/// whole emitted stream.
pub proof fn lemma_client_sees_emitted_suffix(s: WeaverServer, k: int)
    requires
        s.wf(),
        0 <= k < s.channels().len(),
    ensures
        s.channels()[k].stream().len() >= 1,
        s.channels()[k].stream()[0].notice is CommandsBulk,
        0 <= s.channels()[k].joined_at@ <= s.emitted@.len(),
        s.channels()[k].stream().skip(1) == s.emitted@.skip(s.channels()[k].joined_at@),
        s.channels()[k].joined_at@ == 0 ==> s.channels()[k].stream().skip(1) == s.emitted@,
{
    if s.channels()[k].joined_at@ == 0 {
        assert(s.emitted@.skip(0) =~= s.emitted@);
    }
}

/// Any two connected clients that apply their full streams end up with
/// the same replica: the daemon's history.
pub proof fn lemma_clients_agree(s: WeaverServer, k1: int, k2: int)
    requires
        s.wf(),
        0 <= k1 < s.channels().len(),
        0 <= k2 < s.channels().len(),
    ensures
        replay(s.channels()[k1].stream()) == replay(s.channels()[k2].stream()),
{
}

/// A broadcast step only ever extends records: every command already in
/// the history keeps its command line, keeps what its output buffers
/// held (chunks append, never rewrite), and a status once set is never
/// changed.
pub proof fn lemma_broadcast_extends_records(
    m: Map<CommandId, WeaverCommandV>,
    msg: ServerMessageV,
)
    requires
        broadcast_ok(m, msg),
    ensures
        forall|i: CommandId| #[trigger] m.dom().contains(i) ==> ({
            let m1 = apply_notice(m, msg);
            &&& m1.dom().contains(i)
            &&& m1[i].cmd == m[i].cmd
            &&& m[i].stdout.is_prefix_of(m1[i].stdout)
            &&& m[i].stderr.is_prefix_of(m1[i].stderr)
            &&& (m[i].status is Some ==> m1[i].status == m[i].status)
        }),
{
    let m1 = apply_notice(m, msg);
    assert forall|i: CommandId| #[trigger] m.dom().contains(i) implies ({
        &&& m1.dom().contains(i)
        &&& m1[i].cmd == m[i].cmd
        &&& m[i].stdout.is_prefix_of(m1[i].stdout)
        &&& m[i].stderr.is_prefix_of(m1[i].stderr)
        &&& (m[i].status is Some ==> m1[i].status == m[i].status)
    }) by {
        match msg.notice {
            ServerNoticeV::CommandOutput(j, t) => {
                if i == j {
                    assert(m1[i].stdout =~= m[i].stdout + t);
                    assert(m[i].stdout.is_prefix_of(m[i].stdout + t));
                }
            },
            ServerNoticeV::CommandErr(j, t) => {
                if i == j {
                    assert(m[i].stderr.is_prefix_of(m[i].stderr + t));
                }
            },
            _ => {},
        }
        assert(m[i].stdout.is_prefix_of(m[i].stdout));
        assert(m[i].stderr.is_prefix_of(m[i].stderr));
    }
}

/// Names what `String::from_utf8_lossy` yields: a function of the bytes
/// alone, in every process and on every machine.
pub uninterp spec fn lossy_utf8(bytes: Seq<u8>) -> Seq<char>;

/// Relies on `String::from_utf8_lossy`: its result depends only on the
/// bytes, and on valid UTF-8 it is exactly their decoding (the conversion
/// is documented to hand the bytes back unchanged in that case).
#[verifier::external_body]
fn lossy_string(bytes: &Vec<u8>) -> (r: String)
    ensures
        r@ == lossy_utf8(bytes@),
        valid_utf8(bytes@) ==> r@ == decode_utf8(bytes@),
{
    String::from_utf8_lossy(bytes.as_slice()).to_string()
}

} // verus!
