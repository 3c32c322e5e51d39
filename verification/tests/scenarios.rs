use weaver::codec::FrameDecoder;
use weaver::codec::decode_server_message;
use weaver::codec::encode_frame;
use weaver::codec::encode_server_message;
use weaver::daemon::WeaverServer;
use weaver::messages::ClientMessage;
use weaver::messages::ClientRequest;
use weaver::messages::ServerMessage;
use weaver::messages::ServerNotice;
use weaver::client::WeaverState;

fn run_request(id: u32, cmd: &str) -> ClientMessage {
    ClientMessage { id, request: ClientRequest::RunCommand(String::from(cmd)) }
}

/// Drains one client's queue, as its socket writer would.
fn drain(server: &mut WeaverServer, client: u32) -> Vec<ServerMessage> {
    let mut out = Vec::new();
    while let Some(m) = server.pop_client_queue(client) {
        out.push(m);
    }
    out
}

/// Carries drained notices to a client state over the real wire format,
/// as the socket and the client's decode loop would.
fn deliver(state: &mut WeaverState, msgs: &[ServerMessage]) {
    let mut dec = FrameDecoder::new();
    for m in msgs {
        dec.feed(&encode_frame(encode_server_message(m)));
    }
    while let Some(body) = dec.try_frame() {
        let msg = decode_server_message(&body).expect("well-formed frame");
        state.do_update(msg);
    }
}

#[test]
fn echo_hello_reaches_the_client() {
    let mut server = WeaverServer::new();
    let a = server.accept_client();
    assert_eq!(a, 1);

    let rc = server.handle_client_message(run_request(1, "echo hello"));
    assert_eq!(rc.command_id, 1);
    assert_eq!(rc.request_id, 1);
    assert!(server.child_output(&rc, &b"hello\n".to_vec()));
    assert!(server.child_exit(&rc, 0));

    let got = drain(&mut server, a);
    assert_eq!(got.len(), 4);
    assert_eq!(got[0], ServerMessage { id: 0, notice: ServerNotice::CommandsBulk(vec![]) });
    assert_eq!(got[1], ServerMessage { id: 1, notice: ServerNotice::CommandStarted(1, String::from("echo hello")) });
    assert_eq!(got[2], ServerMessage { id: 1, notice: ServerNotice::CommandOutput(1, String::from("hello\n")) });
    assert_eq!(got[3], ServerMessage { id: 1, notice: ServerNotice::CommandCompleted(1, 0) });

    let mut client = WeaverState::new();
    deliver(&mut client, &got);
    assert_eq!(client.command_history.commands.len(), 1);
    let cmd = &client.command_history.commands[0].1;
    assert_eq!(cmd.cmd, "echo hello");
    assert_eq!(cmd.stdout, "hello\n");
    assert_eq!(cmd.stderr, "");
    assert_eq!(cmd.status, Some(0));
}

#[test]
fn late_client_gets_a_bulk_snapshot_only() {
    let mut server = WeaverServer::new();
    let a = server.accept_client();
    let rc = server.handle_client_message(run_request(1, "echo hello"));
    assert!(server.child_output(&rc, &b"hello\n".to_vec()));
    assert!(server.child_exit(&rc, 0));
    let for_a = drain(&mut server, a);

    let b = server.accept_client();
    assert_eq!(b, 2);
    let for_b = drain(&mut server, b);
    assert_eq!(for_b.len(), 1, "B's first and only notice is the snapshot");
    match &for_b[0].notice {
        ServerNotice::CommandsBulk(pairs) => {
            assert_eq!(pairs.len(), 1);
            assert_eq!(pairs[0].0, 1);
            assert_eq!(pairs[0].1.stdout, "hello\n");
            assert_eq!(pairs[0].1.status, Some(0));
        },
        other => panic!("expected a bulk snapshot, got {:?}", other),
    }
    assert!(drain(&mut server, a).is_empty(), "A receives nothing new");

    // Replaying either stream yields the same replica.
    let mut client_a = WeaverState::new();
    deliver(&mut client_a, &for_a);
    let mut client_b = WeaverState::new();
    deliver(&mut client_b, &for_b);
    assert_eq!(client_a.command_history.commands, client_b.command_history.commands);
}

#[test]
fn two_clients_observe_the_same_ordered_stream() {
    let mut server = WeaverServer::new();
    let a = server.accept_client();
    let b = server.accept_client();

    let rc = server.handle_client_message(run_request(1, "sh -c 'echo out; echo err 1>&2; exit 3'"));
    assert!(server.child_output(&rc, &b"out\n".to_vec()));
    assert!(server.child_err(&rc, &b"err\n".to_vec()));
    assert!(server.child_exit(&rc, 3));

    let for_a = drain(&mut server, a);
    let for_b = drain(&mut server, b);
    // Identical after each one's own snapshot.
    assert_eq!(for_a[1..], for_b[1..]);

    let mut client_a = WeaverState::new();
    deliver(&mut client_a, &for_a);
    let mut client_b = WeaverState::new();
    deliver(&mut client_b, &for_b);
    assert_eq!(client_a.command_history.commands, client_b.command_history.commands);
    let cmd = &client_a.command_history.commands[0].1;
    assert_eq!(cmd.stdout, "out\n");
    assert_eq!(cmd.stderr, "err\n");
    assert_eq!(cmd.status, Some(3));
}

#[test]
fn concurrent_commands_interleave_and_both_finish() {
    let mut server = WeaverServer::new();
    let a = server.accept_client();

    let slow = server.handle_client_message(run_request(1, "sleep 0.1 && echo done"));
    let fast = server.handle_client_message(run_request(2, "echo fast"));
    assert_ne!(slow.command_id, fast.command_id);
    assert_eq!(slow.command_id, 1);
    assert_eq!(fast.command_id, 2);

    // The fast command finishes while the slow one still runs.
    assert!(server.child_output(&fast, &b"fast\n".to_vec()));
    assert!(server.child_exit(&fast, 0));
    assert!(server.child_output(&slow, &b"done\n".to_vec()));
    assert!(server.child_exit(&slow, 0));

    let got = drain(&mut server, a);
    let positions: Vec<String> = got.iter().map(|m| format!("{:?}", m.notice)).collect();
    let started_second = positions.iter().position(|p| p.contains("CommandStarted(2")).unwrap();
    let completed_first = positions.iter().position(|p| p.contains("CommandCompleted(1")).unwrap();
    assert!(started_second < completed_first);

    let mut client = WeaverState::new();
    deliver(&mut client, &got);
    assert_eq!(client.command_history.commands[0].1.status, Some(0));
    assert_eq!(client.command_history.commands[1].1.status, Some(0));
}

#[test]
fn disconnected_clients_command_keeps_running() {
    let mut server = WeaverServer::new();
    let a = server.accept_client();
    let rc = server.handle_client_message(run_request(1, "long job"));
    assert!(server.remove_client(a));

    // The child keeps producing and completing after A is gone.
    assert!(server.child_output(&rc, &b"partial".to_vec()));
    assert!(server.child_output(&rc, &b" output\n".to_vec()));
    assert!(server.child_exit(&rc, 0));

    let b = server.accept_client();
    assert_eq!(b, 2, "client ids are not reused");
    let for_b = drain(&mut server, b);
    assert_eq!(for_b.len(), 1);
    match &for_b[0].notice {
        ServerNotice::CommandsBulk(pairs) => {
            assert_eq!(pairs[0].1.stdout, "partial output\n");
            assert_eq!(pairs[0].1.status, Some(0));
        },
        other => panic!("expected a bulk snapshot, got {:?}", other),
    }
    assert!(server.pop_client_queue(a).is_none(), "A's queue is gone");
}

#[test]
fn spawn_failure_completes_with_nonzero_and_stderr() {
    let mut server = WeaverServer::new();
    let a = server.accept_client();
    let rc = server.handle_client_message(run_request(1, "no_such_program_anywhere"));
    server.child_spawn_failed(&rc, &b"no_such_program_anywhere: command not found\n".to_vec(), 127);

    let got = drain(&mut server, a);
    assert_eq!(got.len(), 4);
    assert!(matches!(got[1].notice, ServerNotice::CommandStarted(1, _)));
    assert_eq!(got[2], ServerMessage { id: 1, notice: ServerNotice::CommandErr(1, String::from("no_such_program_anywhere: command not found\n")) });
    assert_eq!(got[3], ServerMessage { id: 1, notice: ServerNotice::CommandCompleted(1, 127) });

    let mut client = WeaverState::new();
    deliver(&mut client, &got);
    let cmd = &client.command_history.commands[0].1;
    assert!(cmd.status.unwrap() != 0);
    assert!(cmd.stderr.contains("command not found"));
}

#[test]
fn instant_exit_emits_started_then_completed_only() {
    let mut server = WeaverServer::new();
    let a = server.accept_client();
    let rc = server.handle_client_message(run_request(1, "true"));
    // Empty reads happen while the child winds down; none may be emitted.
    assert!(!server.child_output(&rc, &Vec::new()));
    assert!(!server.child_err(&rc, &Vec::new()));
    assert!(server.child_exit(&rc, 0));

    let got = drain(&mut server, a);
    assert_eq!(got.len(), 3);
    assert!(matches!(got[0].notice, ServerNotice::CommandsBulk(_)));
    assert!(matches!(got[1].notice, ServerNotice::CommandStarted(1, _)));
    assert_eq!(got[2].notice, ServerNotice::CommandCompleted(1, 0));
}

#[test]
fn chunked_output_concatenates_to_the_full_text() {
    let mut server = WeaverServer::new();
    let a = server.accept_client();
    let rc = server.handle_client_message(run_request(1, "burst"));
    let big: String = "0123456789abcdef".repeat(256);
    let bytes = big.as_bytes();
    for chunk in bytes.chunks(1024) {
        assert!(server.child_output(&rc, &chunk.to_vec()));
    }
    assert!(server.child_exit(&rc, 0));

    let got = drain(&mut server, a);
    let mut client = WeaverState::new();
    deliver(&mut client, &got);
    assert_eq!(client.command_history.commands[0].1.stdout, big);
}

#[test]
fn duplicate_exit_reports_are_dropped() {
    let mut server = WeaverServer::new();
    let a = server.accept_client();
    let rc = server.handle_client_message(run_request(1, "x"));
    assert!(server.child_exit(&rc, 0));
    assert!(!server.child_exit(&rc, 1), "a second completion is refused");
    let got = drain(&mut server, a);
    let completions = got
        .iter()
        .filter(|m| matches!(m.notice, ServerNotice::CommandCompleted(_, _)))
        .count();
    assert_eq!(completions, 1);
}

#[test]
fn chunks_after_completion_are_dropped() {
    let mut server = WeaverServer::new();
    let a = server.accept_client();
    let rc = server.handle_client_message(run_request(1, "x"));
    assert!(server.child_exit(&rc, 0));
    assert!(!server.child_output(&rc, &b"late\n".to_vec()));
    assert!(!server.child_err(&rc, &b"late\n".to_vec()));
    let got = drain(&mut server, a);
    assert!(got.iter().all(|m| !matches!(
        m.notice,
        ServerNotice::CommandOutput(_, _) | ServerNotice::CommandErr(_, _)
    )));
}

#[test]
fn chunks_for_unknown_commands_are_dropped() {
    let mut server = WeaverServer::new();
    server.accept_client();
    let ghost_rc = weaver::daemon::RunningCommand::new(9, 42);
    assert!(!server.child_output(&ghost_rc, &b"stray\n".to_vec()));
    assert!(!server.child_exit(&ghost_rc, 0));
}

#[test]
fn invalid_utf8_chunks_are_decoded_lossily() {
    let mut server = WeaverServer::new();
    let a = server.accept_client();
    let rc = server.handle_client_message(run_request(1, "binary"));
    assert!(server.child_output(&rc, &vec![0xff, b'o', b'k']));
    assert!(server.child_exit(&rc, 0));
    let got = drain(&mut server, a);
    match &got[2].notice {
        ServerNotice::CommandOutput(_, text) => assert_eq!(text, "\u{fffd}ok"),
        other => panic!("expected an output chunk, got {:?}", other),
    }
}

#[test]
fn first_notice_mentioning_a_command_introduces_it() {
    let mut server = WeaverServer::new();
    let a = server.accept_client();
    let rc1 = server.handle_client_message(run_request(1, "one"));
    assert!(server.child_output(&rc1, &b"x".to_vec()));
    let rc2 = server.handle_client_message(run_request(2, "two"));
    assert!(server.child_exit(&rc2, 0));
    assert!(server.child_exit(&rc1, 0));

    let got = drain(&mut server, a);
    let mut seen: Vec<u32> = Vec::new();
    for m in &got {
        match &m.notice {
            ServerNotice::CommandsBulk(pairs) => {
                for (i, _) in pairs {
                    seen.push(*i);
                }
            },
            ServerNotice::CommandStarted(i, _) => seen.push(*i),
            ServerNotice::CommandOutput(i, _)
            | ServerNotice::CommandErr(i, _)
            | ServerNotice::CommandCompleted(i, _) => {
                assert!(seen.contains(i), "{:?} mentioned before being introduced", i);
            },
        }
    }
}
