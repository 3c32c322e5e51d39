use weaver::codec::FrameDecoder;
use weaver::codec::decode_client_message;
use weaver::codec::decode_server_message;
use weaver::codec::encode_client_message;
use weaver::codec::encode_frame;
use weaver::codec::encode_server_message;
use weaver::messages::ClientMessage;
use weaver::messages::ClientRequest;
use weaver::messages::ServerMessage;
use weaver::messages::ServerNotice;
use weaver::messages::WeaverCommand;

fn server_msg(id: u32, notice: ServerNotice) -> ServerMessage {
    ServerMessage { id, notice }
}

#[test]
fn client_message_round_trip() {
    let m = ClientMessage { id: 7, request: ClientRequest::RunCommand(String::from("echo hello")) };
    let bytes = encode_client_message(&m);
    let back = decode_client_message(&bytes).expect("decodes");
    assert_eq!(back, m);
}

#[test]
fn server_message_round_trip_all_variants() {
    let mut done = WeaverCommand::new(String::from("ls"));
    done.stdout.push_str("a\nb\n");
    done.stderr.push_str("warn\n");
    done.status = Some(0);
    let variants = vec![
        server_msg(0, ServerNotice::CommandsBulk(vec![(1, done), (2, WeaverCommand::new(String::from("sleep 5")))])),
        server_msg(3, ServerNotice::CommandStarted(4, String::from("make test"))),
        server_msg(3, ServerNotice::CommandOutput(4, String::from("building...\n"))),
        server_msg(3, ServerNotice::CommandErr(4, String::from("oops\n"))),
        server_msg(3, ServerNotice::CommandCompleted(4, 0)),
    ];
    for m in variants {
        let bytes = encode_server_message(&m);
        let back = decode_server_message(&bytes).expect("decodes");
        assert_eq!(back, m);
    }
}

#[test]
fn negative_and_extreme_exit_codes_round_trip() {
    for code in [-1, -9, i32::MIN, i32::MAX, 0, 255] {
        let m = server_msg(1, ServerNotice::CommandCompleted(2, code));
        let bytes = encode_server_message(&m);
        let back = decode_server_message(&bytes).expect("decodes");
        assert_eq!(back, m);
    }
}

#[test]
fn non_ascii_text_round_trips() {
    let m = server_msg(9, ServerNotice::CommandOutput(1, String::from("h\u{e9}llo \u{2603} \u{1f600}\n")));
    let bytes = encode_server_message(&m);
    let back = decode_server_message(&bytes).expect("decodes");
    assert_eq!(back, m);
}

#[test]
fn empty_strings_round_trip() {
    let m = ClientMessage { id: 1, request: ClientRequest::RunCommand(String::new()) };
    let bytes = encode_client_message(&m);
    assert_eq!(decode_client_message(&bytes).expect("decodes"), m);
}

#[test]
fn unknown_notice_tag_is_fatal() {
    let m = server_msg(3, ServerNotice::CommandStarted(4, String::from("x")));
    let mut bytes = encode_server_message(&m);
    // The variant tag sits right after the 4-byte message id.
    assert_eq!(bytes[4], 2);
    bytes[4] = 9;
    assert!(decode_server_message(&bytes).is_none());
}

#[test]
fn unknown_request_tag_is_fatal() {
    let m = ClientMessage { id: 1, request: ClientRequest::RunCommand(String::from("x")) };
    let mut bytes = encode_client_message(&m);
    assert_eq!(bytes[4], 1);
    bytes[4] = 2;
    assert!(decode_client_message(&bytes).is_none());
}

#[test]
fn truncated_message_is_rejected() {
    let m = server_msg(3, ServerNotice::CommandOutput(4, String::from("some text")));
    let bytes = encode_server_message(&m);
    for cut in 0..bytes.len() {
        let prefix = bytes[..cut].to_vec();
        assert!(decode_server_message(&prefix).is_none(), "prefix of {} bytes decoded", cut);
    }
}

#[test]
fn trailing_bytes_are_rejected() {
    let m = server_msg(3, ServerNotice::CommandCompleted(4, 1));
    let mut bytes = encode_server_message(&m);
    bytes.push(0);
    assert!(decode_server_message(&bytes).is_none());
}

#[test]
fn invalid_utf8_in_text_field_is_rejected() {
    // id = 3, tag = 2 (CommandStarted), command id = 4, then a byte string
    // of length 2 that is not valid UTF-8.
    let mut bytes = Vec::new();
    bytes.extend_from_slice(&3u32.to_le_bytes());
    bytes.push(2);
    bytes.extend_from_slice(&4u32.to_le_bytes());
    bytes.extend_from_slice(&2u64.to_le_bytes());
    bytes.extend_from_slice(&[0xff, 0xfe]);
    assert!(decode_server_message(&bytes).is_none());
}

#[test]
fn frame_decoder_reassembles_byte_by_byte() {
    let m1 = server_msg(1, ServerNotice::CommandStarted(1, String::from("echo hi")));
    let m2 = server_msg(1, ServerNotice::CommandCompleted(1, 0));
    let mut stream = Vec::new();
    stream.extend_from_slice(&encode_frame(encode_server_message(&m1)));
    stream.extend_from_slice(&encode_frame(encode_server_message(&m2)));

    let mut dec = FrameDecoder::new();
    let mut got = Vec::new();
    for b in stream {
        dec.feed(&vec![b]);
        while let Some(body) = dec.try_frame() {
            got.push(decode_server_message(&body).expect("frame holds a message"));
        }
    }
    assert_eq!(got, vec![m1, m2]);
}

#[test]
fn frame_decoder_handles_split_and_joined_frames() {
    let m1 = server_msg(2, ServerNotice::CommandOutput(1, String::from("abc")));
    let m2 = server_msg(2, ServerNotice::CommandErr(1, String::from("def")));
    let mut stream = Vec::new();
    stream.extend_from_slice(&encode_frame(encode_server_message(&m1)));
    stream.extend_from_slice(&encode_frame(encode_server_message(&m2)));

    // Both frames arrive in one read.
    let mut dec = FrameDecoder::new();
    dec.feed(&stream);
    let b1 = dec.try_frame().expect("first frame complete");
    let b2 = dec.try_frame().expect("second frame complete");
    assert!(dec.try_frame().is_none());
    assert_eq!(decode_server_message(&b1).unwrap(), m1);
    assert_eq!(decode_server_message(&b2).unwrap(), m2);
}

#[test]
fn frame_decoder_waits_for_missing_bytes() {
    let m = server_msg(1, ServerNotice::CommandStarted(1, String::from("x")));
    let frame = encode_frame(encode_server_message(&m));
    let mut dec = FrameDecoder::new();
    dec.feed(&frame[..frame.len() - 1].to_vec());
    assert!(dec.try_frame().is_none());
    dec.feed(&vec![frame[frame.len() - 1]]);
    let body = dec.try_frame().expect("now complete");
    assert_eq!(decode_server_message(&body).unwrap(), m);
}

#[test]
fn bulk_snapshot_of_many_commands_round_trips() {
    let mut pairs = Vec::new();
    for i in 1..=40u32 {
        let mut c = WeaverCommand::new(format!("cmd {}", i));
        c.stdout.push_str(&format!("out {}\n", i));
        if i % 2 == 0 {
            c.status = Some((i as i32) - 3);
        }
        pairs.push((i, c));
    }
    let m = server_msg(0, ServerNotice::CommandsBulk(pairs));
    let bytes = encode_server_message(&m);
    assert_eq!(decode_server_message(&bytes).expect("decodes"), m);
}
