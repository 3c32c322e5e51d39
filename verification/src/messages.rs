//! The message data model shared by daemon and client.
//!
//! A `ClientMessage` carries one request from a client to the daemon; a
//! `ServerMessage` carries one notice from the daemon to a client.  Each
//! executable type has a spec-level mirror (its view) over `Seq<char>` so
//! that contracts can speak about message contents mathematically.

use vstd::prelude::*;

verus! {

/// Identifier of one submitted command; assigned by the daemon, starting at
/// 1, never reused within a daemon lifetime.
pub type CommandId = u32;

/// Spec-level mirror of [`WeaverCommand`].
#[verifier::ext_equal]
pub ghost struct WeaverCommandV {
    pub cmd: Seq<char>,
    pub stdout: Seq<char>,
    pub stderr: Seq<char>,
    pub status: Option<i32>,
}

/// The per-command record: the command line as submitted, the text gathered
/// so far from the child's stdout and stderr, and the exit status (absent
/// while the child is still running).
#[derive(Debug, PartialEq)]
pub struct WeaverCommand {
    pub cmd: String,
    pub stdout: String,
    pub stderr: String,
    pub status: Option<i32>,
}

impl View for WeaverCommand {
    type V = WeaverCommandV;

    open spec fn view(&self) -> WeaverCommandV {
        WeaverCommandV {
            cmd: self.cmd@,
            stdout: self.stdout@,
            stderr: self.stderr@,
            status: self.status,
        }
    }
}

impl Clone for WeaverCommand {
    fn clone(&self) -> (res: Self)
        ensures
            res == *self,
    {
        WeaverCommand {
            cmd: self.cmd.clone(),
            stdout: self.stdout.clone(),
            stderr: self.stderr.clone(),
            status: self.status,
        }
    }
}

impl WeaverCommand {
    /// A fresh record for a command that has just been started: empty output
    /// buffers and no exit status yet.
    pub fn new(cmd: String) -> (res: Self)
        ensures
            res@ == WeaverCommandV::started(cmd@),
    {
        WeaverCommand {
            cmd,
            stdout: String::new(),
            stderr: String::new(),
            status: None,
        }
    }

    /// The glyph a front-end shows beside the command: running while the
    /// status is absent, success on exit code zero, failure otherwise.
    pub fn status_icon(&self) -> (r: char)
        ensures
            self.status is None ==> r == '\u{2026}',
            self.status == Some(0i32) ==> r == '\u{2714}',
            (self.status matches Some(c) && c != 0) ==> r == '\u{2718}',
    {
        match self.status {
            None => '\u{2026}',
            Some(0) => '\u{2714}',
            Some(_) => '\u{2718}',
        }
    }
}

impl WeaverCommandV {
    /// The record a `CommandStarted` notice creates.
    pub open spec fn started(cmd: Seq<char>) -> WeaverCommandV {
        WeaverCommandV { cmd, stdout: Seq::empty(), stderr: Seq::empty(), status: None }
    }
}

/// Spec-level mirror of [`ClientRequest`].
pub ghost enum ClientRequestV {
    RunCommand(Seq<char>),
}

/// What a client can ask of the daemon.
#[derive(Debug, PartialEq)]
pub enum ClientRequest {
    RunCommand(String),
}

impl View for ClientRequest {
    type V = ClientRequestV;

    open spec fn view(&self) -> ClientRequestV {
        match self {
            ClientRequest::RunCommand(s) => ClientRequestV::RunCommand(s@),
        }
    }
}

/// Spec-level mirror of [`ClientMessage`].
#[verifier::ext_equal]
pub ghost struct ClientMessageV {
    pub id: u32,
    pub request: ClientRequestV,
}

/// One request frame: a client-chosen request id and the request itself.
#[derive(Debug, PartialEq)]
pub struct ClientMessage {
    pub id: u32,
    pub request: ClientRequest,
}

impl View for ClientMessage {
    type V = ClientMessageV;

    open spec fn view(&self) -> ClientMessageV {
        ClientMessageV { id: self.id, request: self.request@ }
    }
}

/// Spec-level mirror of [`ServerNotice`].
#[verifier::ext_equal]
pub ghost enum ServerNoticeV {
    CommandsBulk(Seq<(CommandId, WeaverCommandV)>),
    CommandStarted(CommandId, Seq<char>),
    CommandOutput(CommandId, Seq<char>),
    CommandErr(CommandId, Seq<char>),
    CommandCompleted(CommandId, i32),
}

/// What the daemon can tell a client: a full snapshot of the history, or one
/// incremental event about a single command.
#[derive(Debug, PartialEq)]
pub enum ServerNotice {
    CommandsBulk(Vec<(CommandId, WeaverCommand)>),
    CommandStarted(CommandId, String),
    CommandOutput(CommandId, String),
    CommandErr(CommandId, String),
    CommandCompleted(CommandId, i32),
}

/// The view of a sequence of `(id, command)` pairs.
pub open spec fn pairs_view(v: Seq<(CommandId, WeaverCommand)>) -> Seq<(CommandId, WeaverCommandV)> {
    v.map_values(|p: (CommandId, WeaverCommand)| (p.0, p.1@))
}

impl View for ServerNotice {
    type V = ServerNoticeV;

    open spec fn view(&self) -> ServerNoticeV {
        match self {
            ServerNotice::CommandsBulk(l) => ServerNoticeV::CommandsBulk(pairs_view(l@)),
            ServerNotice::CommandStarted(i, s) => ServerNoticeV::CommandStarted(*i, s@),
            ServerNotice::CommandOutput(i, s) => ServerNoticeV::CommandOutput(*i, s@),
            ServerNotice::CommandErr(i, s) => ServerNoticeV::CommandErr(*i, s@),
            ServerNotice::CommandCompleted(i, c) => ServerNoticeV::CommandCompleted(*i, *c),
        }
    }
}

/// Clones a snapshot list entry by entry; the copy has the same view.
pub fn clone_command_pairs(v: &Vec<(CommandId, WeaverCommand)>) -> (res: Vec<(CommandId, WeaverCommand)>)
    ensures
        res@ =~= v@,
{
    let mut res: Vec<(CommandId, WeaverCommand)> = Vec::new();
    let mut i: usize = 0;
    while i < v.len()
        invariant
            i <= v@.len(),
            res@ =~= v@.take(i as int),
        decreases v@.len() - i,
    {
        let p = &v[i];
        res.push((p.0, p.1.clone()));
        proof {
            assert(res@ =~= v@.take(i as int + 1));
        }
        i = i + 1;
    }
    proof {
        assert(v@.take(v@.len() as int) =~= v@);
    }
    res
}

impl Clone for ServerNotice {
    fn clone(&self) -> (res: Self)
        ensures
            res@ == self@,
    {
        match self {
            ServerNotice::CommandsBulk(l) => ServerNotice::CommandsBulk(clone_command_pairs(l)),
            ServerNotice::CommandStarted(i, s) => ServerNotice::CommandStarted(*i, s.clone()),
            ServerNotice::CommandOutput(i, s) => ServerNotice::CommandOutput(*i, s.clone()),
            ServerNotice::CommandErr(i, s) => ServerNotice::CommandErr(*i, s.clone()),
            ServerNotice::CommandCompleted(i, c) => ServerNotice::CommandCompleted(*i, *c),
        }
    }
}

/// Spec-level mirror of [`ServerMessage`].
#[verifier::ext_equal]
pub ghost struct ServerMessageV {
    pub id: u32,
    pub notice: ServerNoticeV,
}

/// One notice frame: the id of the originating request (0 for unsolicited
/// notices such as the bulk snapshot) and the notice itself.
#[derive(Debug, PartialEq)]
pub struct ServerMessage {
    pub id: u32,
    pub notice: ServerNotice,
}

impl View for ServerMessage {
    type V = ServerMessageV;

    open spec fn view(&self) -> ServerMessageV {
        ServerMessageV { id: self.id, notice: self.notice@ }
    }
}

impl Clone for ServerMessage {
    fn clone(&self) -> (res: Self)
        ensures
            res@ == self@,
    {
        ServerMessage { id: self.id, notice: self.notice.clone() }
    }
}

} // verus!
