use weaver::history::CommandHistory;
use weaver::messages::ClientMessage;
use weaver::messages::ClientRequest;
use weaver::messages::ServerMessage;
use weaver::messages::ServerNotice;
use weaver::messages::WeaverCommand;
use weaver::client::WeaverClientConnectionState;
use weaver::client::WeaverNotification;
use weaver::client::WeaverState;

fn upd(h: &mut CommandHistory, notice: ServerNotice) {
    h.do_update(ServerMessage { id: 0, notice });
}

#[test]
fn history_records_a_command_lifecycle() {
    let mut h = CommandHistory::new();
    upd(&mut h, ServerNotice::CommandStarted(1, String::from("echo hello")));
    upd(&mut h, ServerNotice::CommandOutput(1, String::from("hel")));
    upd(&mut h, ServerNotice::CommandOutput(1, String::from("lo\n")));
    upd(&mut h, ServerNotice::CommandErr(1, String::from("warn\n")));
    upd(&mut h, ServerNotice::CommandCompleted(1, 0));
    assert_eq!(h.commands.len(), 1);
    let (id, cmd) = &h.commands[0];
    assert_eq!(*id, 1);
    assert_eq!(cmd.cmd, "echo hello");
    assert_eq!(cmd.stdout, "hello\n");
    assert_eq!(cmd.stderr, "warn\n");
    assert_eq!(cmd.status, Some(0));
}

#[test]
fn history_keeps_commands_in_ascending_id_order() {
    let mut h = CommandHistory::new();
    upd(&mut h, ServerNotice::CommandStarted(5, String::from("e")));
    upd(&mut h, ServerNotice::CommandStarted(2, String::from("b")));
    upd(&mut h, ServerNotice::CommandStarted(9, String::from("i")));
    let ids: Vec<u32> = h.iter().iter().map(|p| p.0).collect();
    assert_eq!(ids, vec![2, 5, 9]);
}

#[test]
fn bulk_merge_overwrites_existing_and_adds_new() {
    let mut h = CommandHistory::new();
    upd(&mut h, ServerNotice::CommandStarted(1, String::from("old")));
    let mut newer = WeaverCommand::new(String::from("old"));
    newer.stdout.push_str("done\n");
    newer.status = Some(0);
    let fresh = WeaverCommand::new(String::from("fresh"));
    upd(&mut h, ServerNotice::CommandsBulk(vec![(1, newer.clone()), (3, fresh.clone())]));
    assert_eq!(h.commands.len(), 2);
    assert_eq!(h.commands[0], (1, newer));
    assert_eq!(h.commands[1], (3, fresh));
}

#[test]
fn reapplying_a_started_notice_leaves_the_same_record() {
    let mut once = CommandHistory::new();
    upd(&mut once, ServerNotice::CommandStarted(1, String::from("x")));
    let mut twice = CommandHistory::new();
    upd(&mut twice, ServerNotice::CommandStarted(1, String::from("x")));
    upd(&mut twice, ServerNotice::CommandStarted(1, String::from("x")));
    assert_eq!(once.commands, twice.commands);
}

#[test]
fn reapplying_a_completion_leaves_the_same_status() {
    let mut h = CommandHistory::new();
    upd(&mut h, ServerNotice::CommandStarted(1, String::from("x")));
    upd(&mut h, ServerNotice::CommandCompleted(1, 3));
    let snapshot = h.commands.clone();
    upd(&mut h, ServerNotice::CommandCompleted(1, 3));
    assert_eq!(h.commands, snapshot);
}

#[test]
fn reapplying_a_bulk_snapshot_changes_nothing() {
    let mut h = CommandHistory::new();
    let mut c = WeaverCommand::new(String::from("x"));
    c.status = Some(1);
    let bulk = vec![(4, c)];
    upd(&mut h, ServerNotice::CommandsBulk(bulk.clone()));
    let snapshot = h.commands.clone();
    upd(&mut h, ServerNotice::CommandsBulk(bulk));
    assert_eq!(h.commands, snapshot);
}

#[test]
fn next_index_counts_up_from_one() {
    let mut h = CommandHistory::new();
    assert_eq!(h.next_index(), 1);
    assert_eq!(h.next_index(), 2);
    assert_eq!(h.next_index(), 3);
}

#[test]
fn find_cmd_by_index_walks_newest_first() {
    let mut h = CommandHistory::new();
    upd(&mut h, ServerNotice::CommandStarted(1, String::from("first")));
    upd(&mut h, ServerNotice::CommandStarted(2, String::from("second")));
    upd(&mut h, ServerNotice::CommandStarted(3, String::from("third")));
    assert_eq!(h.find_cmd_by_index(0), Some(String::from("third")));
    assert_eq!(h.find_cmd_by_index(1), Some(String::from("second")));
    assert_eq!(h.find_cmd_by_index(2), Some(String::from("first")));
    assert_eq!(h.find_cmd_by_index(3), None);
}

#[test]
fn into_iter_yields_the_records() {
    let mut h = CommandHistory::new();
    upd(&mut h, ServerNotice::CommandStarted(1, String::from("a")));
    let pairs = h.into_iter();
    assert_eq!(pairs.len(), 1);
    assert_eq!(pairs[0].0, 1);
    assert_eq!(pairs[0].1.cmd, "a");
}

#[test]
fn request_ids_start_at_one_and_increase() {
    let mut s = WeaverState::new();
    s.run_command(String::from("a"));
    s.send_request(ClientRequest::RunCommand(String::from("b")));
    s.run_command(String::from("c"));
    let ids: Vec<u32> = s.outbound.iter().map(|m| m.id).collect();
    assert_eq!(ids, vec![1, 2, 3]);
    match &s.outbound[0].request {
        ClientRequest::RunCommand(c) => assert_eq!(c, "a"),
    }
}

#[test]
fn outbound_queue_drains_in_submission_order() {
    let mut s = WeaverState::new();
    s.run_command(String::from("a"));
    s.run_command(String::from("b"));
    assert_eq!(s.peek_outbound().map(|m| m.id), Some(1));
    let first = s.pop_outbound();
    assert_eq!(first, ClientMessage { id: 1, request: ClientRequest::RunCommand(String::from("a")) });
    assert_eq!(s.peek_outbound().map(|m| m.id), Some(2));
    let second = s.pop_outbound();
    assert_eq!(second.id, 2);
    assert!(s.peek_outbound().is_none());
}

#[test]
fn client_do_update_applies_and_reports() {
    let mut s = WeaverState::new();
    let started = ServerMessage { id: 1, notice: ServerNotice::CommandStarted(1, String::from("x")) };
    assert_eq!(s.do_update(started), Some(WeaverNotification::Updated));
    let out = ServerMessage { id: 1, notice: ServerNotice::CommandOutput(1, String::from("y")) };
    assert_eq!(s.do_update(out), Some(WeaverNotification::Updated));
    assert_eq!(s.command_history.commands[0].1.stdout, "y");
}

#[test]
fn status_icon_tracks_the_exit_state() {
    let mut c = WeaverCommand::new(String::from("x"));
    assert_eq!(c.status_icon(), '\u{2026}');
    c.status = Some(0);
    assert_eq!(c.status_icon(), '\u{2714}');
    c.status = Some(3);
    assert_eq!(c.status_icon(), '\u{2718}');
    c.status = Some(-1);
    assert_eq!(c.status_icon(), '\u{2718}');
}

#[test]
fn connection_phases_run_their_course() {
    let mut c = WeaverClientConnectionState::Pending;
    assert!(!c.is_connected());
    c.on_connect_ok();
    assert!(c.is_connected());
    c.on_fatal_error();
    assert!(!c.is_connected());
    assert_eq!(c, WeaverClientConnectionState::Failed);

    let mut c2 = WeaverClientConnectionState::Pending;
    c2.on_connect_err();
    assert_eq!(c2, WeaverClientConnectionState::Failed);
}
