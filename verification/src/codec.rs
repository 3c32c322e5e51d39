//! The wire protocol: length-prefixed, binary-safe frames, each carrying
//! exactly one [`ClientMessage`] or [`ServerMessage`].
//!
//! A frame is the 8-byte little-endian length of the body followed by the
//! body, so frames are individually decodable from a stream with no outside
//! knowledge of their size.  Inside a body, integers are little-endian,
//! strings are an 8-byte byte-length followed by their UTF-8 bytes, options
//! and message variants carry a leading tag byte, and an unknown tag is a
//! decode error, never skipped.  The encoding is defined once at the spec
//! level ([`enc_client_msg`], [`enc_server_msg`]); the executable encoder
//! and decoder are verified against it, and the round-trip lemmas at the
//! bottom prove that decoding an encoded message yields the original.

use vstd::prelude::*;

use vstd::bytes::lemma_auto_spec_u32_to_from_le_bytes;
use vstd::bytes::lemma_auto_spec_u64_to_from_le_bytes;
use vstd::bytes::spec_u32_from_le_bytes;
use vstd::bytes::spec_u32_to_le_bytes;
use vstd::bytes::spec_u64_from_le_bytes;
use vstd::bytes::spec_u64_to_le_bytes;
use vstd::bytes::u32_from_le_bytes;
use vstd::bytes::u32_to_le_bytes;
use vstd::bytes::u64_from_le_bytes;
use vstd::bytes::u64_to_le_bytes;
use vstd::slice::slice_subrange;
use vstd::slice::slice_to_vec;
use vstd::string::StrSliceExecFns;
use vstd::utf8::decode_utf8;
use vstd::utf8::decode_utf8_encode_utf8;
use vstd::utf8::encode_utf8;
use vstd::utf8::encode_utf8_decode_utf8;
use vstd::utf8::encode_utf8_valid_utf8;
use vstd::utf8::valid_utf8;

use crate::messages::ClientMessage;
use crate::messages::ClientMessageV;
use crate::messages::ClientRequest;
use crate::messages::ClientRequestV;
use crate::messages::CommandId;
use crate::messages::ServerMessage;
use crate::messages::ServerMessageV;
use crate::messages::ServerNotice;
use crate::messages::ServerNoticeV;
use crate::messages::WeaverCommand;
use crate::messages::WeaverCommandV;
use crate::messages::pairs_view;

verus! {

// ---------------------------------------------------------------------
// The encoding, at the spec level.
// ---------------------------------------------------------------------

/// A 32-bit unsigned integer: 4 bytes, little-endian.
pub open spec fn enc_u32(v: u32) -> Seq<u8> {
    spec_u32_to_le_bytes(v)
}

/// A 64-bit unsigned integer: 8 bytes, little-endian.
pub open spec fn enc_u64(v: u64) -> Seq<u8> {
    spec_u64_to_le_bytes(v)
}

/// A byte string: its length, then its bytes.
pub open spec fn enc_bytes(b: Seq<u8>) -> Seq<u8> {
    enc_u64(b.len() as u64) + b
}

/// A text string: its UTF-8 bytes as a byte string.
pub open spec fn enc_str(s: Seq<char>) -> Seq<u8> {
    enc_bytes(encode_utf8(s))
}

/// A 32-bit signed integer, sign-and-magnitude: a sign byte (0 for
/// non-negative, 1 for negative), then the magnitude.
pub open spec fn enc_i32(v: i32) -> Seq<u8> {
    if v >= 0 {
        seq![0u8] + enc_u32(v as u32)
    } else {
        seq![1u8] + enc_u32((-(v as int)) as u32)
    }
}

/// An optional exit status: a presence byte, then the code if present.
pub open spec fn enc_status(st: Option<i32>) -> Seq<u8> {
    match st {
        None => seq![0u8],
        Some(c) => seq![1u8] + enc_i32(c),
    }
}

/// A command record: its four fields in order.
pub open spec fn enc_command(c: WeaverCommandV) -> Seq<u8> {
    enc_str(c.cmd) + enc_str(c.stdout) + enc_str(c.stderr) + enc_status(c.status)
}

/// A snapshot list without its count: each pair in order.
pub open spec fn enc_pairs(l: Seq<(CommandId, WeaverCommandV)>) -> Seq<u8>
    decreases l.len(),
{
    if l.len() == 0 {
        Seq::empty()
    } else {
        enc_u32(l.first().0) + enc_command(l.first().1) + enc_pairs(l.drop_first())
    }
}

/// A notice: a variant tag byte, then the payload.
pub open spec fn enc_notice(n: ServerNoticeV) -> Seq<u8> {
    match n {
        ServerNoticeV::CommandsBulk(l) => seq![1u8] + enc_u64(l.len() as u64) + enc_pairs(l),
        ServerNoticeV::CommandStarted(i, s) => seq![2u8] + enc_u32(i) + enc_str(s),
        ServerNoticeV::CommandOutput(i, s) => seq![3u8] + enc_u32(i) + enc_str(s),
        ServerNoticeV::CommandErr(i, s) => seq![4u8] + enc_u32(i) + enc_str(s),
        ServerNoticeV::CommandCompleted(i, c) => seq![5u8] + enc_u32(i) + enc_i32(c),
    }
}

/// A whole server-to-client message body.
pub open spec fn enc_server_msg(m: ServerMessageV) -> Seq<u8> {
    enc_u32(m.id) + enc_notice(m.notice)
}

/// A whole client-to-daemon message body: the request id, a request tag
/// byte, then the payload.
pub open spec fn enc_client_msg(m: ClientMessageV) -> Seq<u8> {
    match m.request {
        ClientRequestV::RunCommand(s) => enc_u32(m.id) + seq![1u8] + enc_str(s),
    }
}

/// A frame on the wire: the body length, then the body.
pub open spec fn enc_frame(body: Seq<u8>) -> Seq<u8> {
    enc_bytes(body)
}

// ---------------------------------------------------------------------
// Size side conditions: a value is encodable when its lengths fit the
// fixed-width length fields.  Every value built from real strings and
// vectors satisfies them.
// ---------------------------------------------------------------------

/// The string's UTF-8 form fits an 8-byte length field.
pub open spec fn str_fits(s: Seq<char>) -> bool {
    encode_utf8(s).len() <= u64::MAX
}

pub open spec fn command_fits(c: WeaverCommandV) -> bool {
    str_fits(c.cmd) && str_fits(c.stdout) && str_fits(c.stderr)
}

pub open spec fn pairs_fit(l: Seq<(CommandId, WeaverCommandV)>) -> bool {
    &&& l.len() <= u64::MAX
    &&& forall|i: int| 0 <= i < l.len() ==> command_fits((#[trigger] l[i]).1)
}

pub open spec fn notice_fits(n: ServerNoticeV) -> bool {
    match n {
        ServerNoticeV::CommandsBulk(l) => pairs_fit(l),
        ServerNoticeV::CommandStarted(i, s) => str_fits(s),
        ServerNoticeV::CommandOutput(i, s) => str_fits(s),
        ServerNoticeV::CommandErr(i, s) => str_fits(s),
        ServerNoticeV::CommandCompleted(i, c) => true,
    }
}

pub open spec fn server_msg_fits(m: ServerMessageV) -> bool {
    notice_fits(m.notice)
}

pub open spec fn client_msg_fits(m: ClientMessageV) -> bool {
    match m.request {
        ClientRequestV::RunCommand(s) => str_fits(s),
    }
}

// ---------------------------------------------------------------------
// The decoding, at the spec level.  Each function consumes a prefix of
// the byte sequence and returns the decoded value with the remainder,
// or nothing if the bytes do not start with a well-formed value.
// ---------------------------------------------------------------------

pub open spec fn dec_u8(b: Seq<u8>) -> Option<(u8, Seq<u8>)> {
    if b.len() >= 1 {
        Some((b[0], b.skip(1)))
    } else {
        None
    }
}

pub open spec fn dec_u32(b: Seq<u8>) -> Option<(u32, Seq<u8>)> {
    if b.len() >= 4 {
        Some((spec_u32_from_le_bytes(b.take(4)), b.skip(4)))
    } else {
        None
    }
}

pub open spec fn dec_u64(b: Seq<u8>) -> Option<(u64, Seq<u8>)> {
    if b.len() >= 8 {
        Some((spec_u64_from_le_bytes(b.take(8)), b.skip(8)))
    } else {
        None
    }
}

pub open spec fn dec_bytes(b: Seq<u8>) -> Option<(Seq<u8>, Seq<u8>)> {
    match dec_u64(b) {
        None => None,
        Some((n, r)) => if r.len() >= n {
            Some((r.take(n as int), r.skip(n as int)))
        } else {
            None
        },
    }
}

pub open spec fn dec_str(b: Seq<u8>) -> Option<(Seq<char>, Seq<u8>)> {
    match dec_bytes(b) {
        None => None,
        Some((bs, r)) => if valid_utf8(bs) {
            Some((decode_utf8(bs), r))
        } else {
            None
        },
    }
}

pub open spec fn dec_i32(b: Seq<u8>) -> Option<(i32, Seq<u8>)> {
    match dec_u8(b) {
        None => None,
        Some((sign, r)) => match dec_u32(r) {
            None => None,
            Some((mag, r2)) => if sign == 0 {
                if mag <= i32::MAX as u32 {
                    Some((mag as i32, r2))
                } else {
                    None
                }
            } else if sign == 1 {
                if 1 <= mag && mag <= 0x8000_0000u32 {
                    Some(((-(mag as int)) as i32, r2))
                } else {
                    None
                }
            } else {
                None
            },
        },
    }
}

pub open spec fn dec_status(b: Seq<u8>) -> Option<(Option<i32>, Seq<u8>)> {
    match dec_u8(b) {
        None => None,
        Some((tag, r)) => if tag == 0 {
            Some((None, r))
        } else if tag == 1 {
            match dec_i32(r) {
                None => None,
                Some((c, r2)) => Some((Some(c), r2)),
            }
        } else {
            None
        },
    }
}

pub open spec fn dec_command(b: Seq<u8>) -> Option<(WeaverCommandV, Seq<u8>)> {
    match dec_str(b) {
        None => None,
        Some((cmd, r1)) => match dec_str(r1) {
            None => None,
            Some((stdout, r2)) => match dec_str(r2) {
                None => None,
                Some((stderr, r3)) => match dec_status(r3) {
                    None => None,
                    Some((status, r4)) => Some(
                        (WeaverCommandV { cmd, stdout, stderr, status }, r4),
                    ),
                },
            },
        },
    }
}

pub open spec fn dec_pairs(b: Seq<u8>, n: nat) -> Option<
    (Seq<(CommandId, WeaverCommandV)>, Seq<u8>),
>
    decreases n,
{
    if n == 0 {
        Some((Seq::empty(), b))
    } else {
        match dec_u32(b) {
            None => None,
            Some((id, r1)) => match dec_command(r1) {
                None => None,
                Some((c, r2)) => match dec_pairs(r2, (n - 1) as nat) {
                    None => None,
                    Some((l, r3)) => Some((seq![(id, c)] + l, r3)),
                },
            },
        }
    }
}

pub open spec fn dec_notice(b: Seq<u8>) -> Option<(ServerNoticeV, Seq<u8>)> {
    match dec_u8(b) {
        None => None,
        Some((tag, r)) => if tag == 1 {
            match dec_u64(r) {
                None => None,
                Some((n, r1)) => match dec_pairs(r1, n as nat) {
                    None => None,
                    Some((l, r2)) => Some((ServerNoticeV::CommandsBulk(l), r2)),
                },
            }
        } else if tag == 2 {
            match dec_u32(r) {
                None => None,
                Some((i, r1)) => match dec_str(r1) {
                    None => None,
                    Some((s, r2)) => Some((ServerNoticeV::CommandStarted(i, s), r2)),
                },
            }
        } else if tag == 3 {
            match dec_u32(r) {
                None => None,
                Some((i, r1)) => match dec_str(r1) {
                    None => None,
                    Some((s, r2)) => Some((ServerNoticeV::CommandOutput(i, s), r2)),
                },
            }
        } else if tag == 4 {
            match dec_u32(r) {
                None => None,
                Some((i, r1)) => match dec_str(r1) {
                    None => None,
                    Some((s, r2)) => Some((ServerNoticeV::CommandErr(i, s), r2)),
                },
            }
        } else if tag == 5 {
            match dec_u32(r) {
                None => None,
                Some((i, r1)) => match dec_i32(r1) {
                    None => None,
                    Some((c, r2)) => Some((ServerNoticeV::CommandCompleted(i, c), r2)),
                },
            }
        } else {
            None
        },
    }
}

pub open spec fn dec_server_msg(b: Seq<u8>) -> Option<(ServerMessageV, Seq<u8>)> {
    match dec_u32(b) {
        None => None,
        Some((id, r)) => match dec_notice(r) {
            None => None,
            Some((n, r1)) => Some((ServerMessageV { id, notice: n }, r1)),
        },
    }
}

pub open spec fn dec_client_msg(b: Seq<u8>) -> Option<(ClientMessageV, Seq<u8>)> {
    match dec_u32(b) {
        None => None,
        Some((id, r)) => match dec_u8(r) {
            None => None,
            Some((tag, r1)) => if tag == 1 {
                match dec_str(r1) {
                    None => None,
                    Some((s, r2)) => Some(
                        (ClientMessageV { id, request: ClientRequestV::RunCommand(s) }, r2),
                    ),
                }
            } else {
                None
            },
        },
    }
}

// ---------------------------------------------------------------------
// Round-trip: decoding an encoding yields the original value and leaves
// exactly the trailing bytes.
// ---------------------------------------------------------------------

pub proof fn lemma_dec_u8(x: u8, rest: Seq<u8>)
    ensures
        dec_u8(seq![x] + rest) == Some((x, rest)),
{
    let b = seq![x] + rest;
    assert(b[0] == x);
    assert(b.skip(1) =~= rest);
}

pub proof fn lemma_dec_u32(v: u32, rest: Seq<u8>)
    ensures
        dec_u32(enc_u32(v) + rest) == Some((v, rest)),
{
    lemma_auto_spec_u32_to_from_le_bytes();
    let b = enc_u32(v) + rest;
    assert(b.take(4) =~= enc_u32(v));
    assert(b.skip(4) =~= rest);
}

pub proof fn lemma_dec_u64(v: u64, rest: Seq<u8>)
    ensures
        dec_u64(enc_u64(v) + rest) == Some((v, rest)),
{
    lemma_auto_spec_u64_to_from_le_bytes();
    let b = enc_u64(v) + rest;
    assert(b.take(8) =~= enc_u64(v));
    assert(b.skip(8) =~= rest);
}

pub proof fn lemma_dec_bytes(bs: Seq<u8>, rest: Seq<u8>)
    requires
        bs.len() <= u64::MAX,
    ensures
        dec_bytes(enc_bytes(bs) + rest) == Some((bs, rest)),
{
    let b = enc_bytes(bs) + rest;
    assert(b =~= enc_u64(bs.len() as u64) + (bs + rest));
    lemma_dec_u64(bs.len() as u64, bs + rest);
    let r = (bs + rest);
    assert(r.take(bs.len() as int) =~= bs);
    assert(r.skip(bs.len() as int) =~= rest);
}

pub proof fn lemma_dec_str(s: Seq<char>, rest: Seq<u8>)
    requires
        str_fits(s),
    ensures
        dec_str(enc_str(s) + rest) == Some((s, rest)),
{
    lemma_dec_bytes(encode_utf8(s), rest);
    encode_utf8_valid_utf8(s);
    encode_utf8_decode_utf8(s);
}

pub proof fn lemma_dec_i32(v: i32, rest: Seq<u8>)
    ensures
        dec_i32(enc_i32(v) + rest) == Some((v, rest)),
{
    if v >= 0 {
        let b = enc_i32(v) + rest;
        assert(b =~= seq![0u8] + (enc_u32(v as u32) + rest));
        lemma_dec_u8(0u8, enc_u32(v as u32) + rest);
        lemma_dec_u32(v as u32, rest);
    } else {
        let mag = (-(v as int)) as u32;
        let b = enc_i32(v) + rest;
        assert(b =~= seq![1u8] + (enc_u32(mag) + rest));
        lemma_dec_u8(1u8, enc_u32(mag) + rest);
        lemma_dec_u32(mag, rest);
        assert(1 <= mag && mag <= 0x8000_0000u32);
        assert((-(mag as int)) as i32 == v);
    }
}

pub proof fn lemma_dec_status(st: Option<i32>, rest: Seq<u8>)
    ensures
        dec_status(enc_status(st) + rest) == Some((st, rest)),
{
    match st {
        None => {
            lemma_dec_u8(0u8, rest);
            assert(enc_status(st) + rest =~= seq![0u8] + rest);
        },
        Some(c) => {
            assert(enc_status(st) + rest =~= seq![1u8] + (enc_i32(c) + rest));
            lemma_dec_u8(1u8, enc_i32(c) + rest);
            lemma_dec_i32(c, rest);
        },
    }
}

pub proof fn lemma_dec_command(c: WeaverCommandV, rest: Seq<u8>)
    requires
        command_fits(c),
    ensures
        dec_command(enc_command(c) + rest) == Some((c, rest)),
{
    let tail1 = enc_str(c.stdout) + enc_str(c.stderr) + enc_status(c.status) + rest;
    assert(enc_command(c) + rest =~= enc_str(c.cmd) + tail1);
    lemma_dec_str(c.cmd, tail1);
    let tail2 = enc_str(c.stderr) + enc_status(c.status) + rest;
    assert(tail1 =~= enc_str(c.stdout) + tail2);
    lemma_dec_str(c.stdout, tail2);
    let tail3 = enc_status(c.status) + rest;
    assert(tail2 =~= enc_str(c.stderr) + tail3);
    lemma_dec_str(c.stderr, tail3);
    lemma_dec_status(c.status, rest);
}

pub proof fn lemma_dec_pairs(l: Seq<(CommandId, WeaverCommandV)>, rest: Seq<u8>)
    requires
        forall|i: int| 0 <= i < l.len() ==> command_fits((#[trigger] l[i]).1),
    ensures
        dec_pairs(enc_pairs(l) + rest, l.len() as nat) == Some((l, rest)),
    decreases l.len(),
{
    if l.len() == 0 {
        assert(enc_pairs(l) + rest =~= rest);
    } else {
        let (id, c) = l.first();
        let tail1 = enc_command(c) + (enc_pairs(l.drop_first()) + rest);
        assert(enc_pairs(l) + rest =~= enc_u32(id) + tail1);
        lemma_dec_u32(id, tail1);
        lemma_dec_command(c, enc_pairs(l.drop_first()) + rest);
        assert(forall|i: int|
            0 <= i < l.drop_first().len() ==> command_fits((#[trigger] l.drop_first()[i]).1));
        lemma_dec_pairs(l.drop_first(), rest);
        assert(seq![(id, c)] + l.drop_first() =~= l);
    }
}

pub proof fn lemma_dec_notice(n: ServerNoticeV, rest: Seq<u8>)
    requires
        notice_fits(n),
    ensures
        dec_notice(enc_notice(n) + rest) == Some((n, rest)),
{
    match n {
        ServerNoticeV::CommandsBulk(l) => {
            let tail1 = enc_u64(l.len() as u64) + (enc_pairs(l) + rest);
            assert(enc_notice(n) + rest =~= seq![1u8] + tail1);
            lemma_dec_u8(1u8, tail1);
            lemma_dec_u64(l.len() as u64, enc_pairs(l) + rest);
            lemma_dec_pairs(l, rest);
            assert((l.len() as u64) as nat == l.len());
        },
        ServerNoticeV::CommandStarted(i, s) => {
            let tail1 = enc_u32(i) + (enc_str(s) + rest);
            assert(enc_notice(n) + rest =~= seq![2u8] + tail1);
            lemma_dec_u8(2u8, tail1);
            lemma_dec_u32(i, enc_str(s) + rest);
            lemma_dec_str(s, rest);
        },
        ServerNoticeV::CommandOutput(i, s) => {
            let tail1 = enc_u32(i) + (enc_str(s) + rest);
            assert(enc_notice(n) + rest =~= seq![3u8] + tail1);
            lemma_dec_u8(3u8, tail1);
            lemma_dec_u32(i, enc_str(s) + rest);
            lemma_dec_str(s, rest);
        },
        ServerNoticeV::CommandErr(i, s) => {
            let tail1 = enc_u32(i) + (enc_str(s) + rest);
            assert(enc_notice(n) + rest =~= seq![4u8] + tail1);
            lemma_dec_u8(4u8, tail1);
            lemma_dec_u32(i, enc_str(s) + rest);
            lemma_dec_str(s, rest);
        },
        ServerNoticeV::CommandCompleted(i, c) => {
            let tail1 = enc_u32(i) + (enc_i32(c) + rest);
            assert(enc_notice(n) + rest =~= seq![5u8] + tail1);
            lemma_dec_u8(5u8, tail1);
            lemma_dec_u32(i, enc_i32(c) + rest);
            lemma_dec_i32(c, rest);
        },
    }
}

/// Round trip for server messages: decoding an encoded message yields the
/// message and leaves exactly the trailing bytes.
pub proof fn lemma_server_msg_round_trip(m: ServerMessageV, rest: Seq<u8>)
    requires
        server_msg_fits(m),
    ensures
        dec_server_msg(enc_server_msg(m) + rest) == Some((m, rest)),
{
    let tail = enc_notice(m.notice) + rest;
    assert(enc_server_msg(m) + rest =~= enc_u32(m.id) + tail);
    lemma_dec_u32(m.id, tail);
    lemma_dec_notice(m.notice, rest);
}

/// Round trip for client messages.
pub proof fn lemma_client_msg_round_trip(m: ClientMessageV, rest: Seq<u8>)
    requires
        client_msg_fits(m),
    ensures
        dec_client_msg(enc_client_msg(m) + rest) == Some((m, rest)),
{
    match m.request {
        ClientRequestV::RunCommand(s) => {
            let tail = seq![1u8] + (enc_str(s) + rest);
            assert(enc_client_msg(m) + rest =~= enc_u32(m.id) + tail);
            lemma_dec_u32(m.id, tail);
            lemma_dec_u8(1u8, enc_str(s) + rest);
            lemma_dec_str(s, rest);
        },
    }
}

// ---------------------------------------------------------------------
// The executable encoder.
// ---------------------------------------------------------------------

fn push_u8(out: &mut Vec<u8>, v: u8)
    ensures
        final(out)@ == old(out)@ + seq![v],
{
    out.push(v);
    proof {
        assert(out@ =~= old(out)@ + seq![v]);
    }
}

fn push_u32(out: &mut Vec<u8>, v: u32)
    ensures
        final(out)@ == old(out)@ + enc_u32(v),
{
    let mut b = u32_to_le_bytes(v);
    out.append(&mut b);
}

fn push_u64(out: &mut Vec<u8>, v: u64)
    ensures
        final(out)@ == old(out)@ + enc_u64(v),
{
    let mut b = u64_to_le_bytes(v);
    out.append(&mut b);
}

fn push_string(out: &mut Vec<u8>, s: &String)
    ensures
        final(out)@ == old(out)@ + enc_str(s@),
{
    let mut bytes = s.as_str().as_bytes_vec();
    push_u64(out, bytes.len() as u64);
    out.append(&mut bytes);
    proof {
        assert(out@ =~= old(out)@ + enc_str(s@));
    }
}

fn push_i32(out: &mut Vec<u8>, v: i32)
    ensures
        final(out)@ == old(out)@ + enc_i32(v),
{
    if v >= 0 {
        push_u8(out, 0);
        push_u32(out, v as u32);
    } else {
        push_u8(out, 1);
        let mag = -(v as i64);
        push_u32(out, mag as u32);
    }
    proof {
        assert(out@ =~= old(out)@ + enc_i32(v));
    }
}

fn push_status(out: &mut Vec<u8>, st: &Option<i32>)
    ensures
        final(out)@ == old(out)@ + enc_status(*st),
{
    match st {
        None => push_u8(out, 0),
        Some(c) => {
            push_u8(out, 1);
            push_i32(out, *c);
            proof {
                assert(out@ =~= old(out)@ + enc_status(*st));
            }
        },
    }
}

fn push_command(out: &mut Vec<u8>, c: &WeaverCommand)
    ensures
        final(out)@ == old(out)@ + enc_command(c@),
{
    push_string(out, &c.cmd);
    push_string(out, &c.stdout);
    push_string(out, &c.stderr);
    push_status(out, &c.status);
    proof {
        assert(out@ =~= old(out)@ + enc_command(c@));
    }
}

fn push_pairs(out: &mut Vec<u8>, l: &Vec<(CommandId, WeaverCommand)>)
    ensures
        final(out)@ == old(out)@ + enc_pairs(pairs_view(l@)),
{
    let ghost lv = pairs_view(l@);
    proof {
        assert(lv.skip(0) =~= lv);
    }
    let mut j: usize = 0;
    while j < l.len()
        invariant
            j <= l@.len(),
            lv == pairs_view(l@),
            out@ + enc_pairs(lv.skip(j as int)) == old(out)@ + enc_pairs(lv),
        decreases l@.len() - j,
    {
        let p = &l[j];
        push_u32(out, p.0);
        push_command(out, &p.1);
        proof {
            let suf = lv.skip(j as int);
            assert(suf.len() > 0);
            assert(suf.first() == lv[j as int]);
            assert(suf.drop_first() =~= lv.skip(j as int + 1));
            assert(enc_pairs(suf) == enc_u32(lv[j as int].0) + enc_command(lv[j as int].1)
                + enc_pairs(lv.skip(j as int + 1)));
            assert(out@ + enc_pairs(lv.skip(j as int + 1)) =~= old(out)@ + enc_pairs(lv));
        }
        j = j + 1;
    }
    proof {
        assert(lv.skip(lv.len() as int) =~= Seq::<(CommandId, WeaverCommandV)>::empty());
        assert(out@ =~= out@ + enc_pairs(lv.skip(lv.len() as int)));
    }
}

/// Encodes one server message body, exactly as [`enc_server_msg`] says.
pub fn encode_server_message(msg: &ServerMessage) -> (out: Vec<u8>)
    ensures
        out@ == enc_server_msg(msg@),
{
    let mut out: Vec<u8> = Vec::new();
    push_u32(&mut out, msg.id);
    match &msg.notice {
        ServerNotice::CommandsBulk(l) => {
            push_u8(&mut out, 1);
            push_u64(&mut out, l.len() as u64);
            push_pairs(&mut out, l);
        },
        ServerNotice::CommandStarted(i, s) => {
            push_u8(&mut out, 2);
            push_u32(&mut out, *i);
            push_string(&mut out, s);
        },
        ServerNotice::CommandOutput(i, s) => {
            push_u8(&mut out, 3);
            push_u32(&mut out, *i);
            push_string(&mut out, s);
        },
        ServerNotice::CommandErr(i, s) => {
            push_u8(&mut out, 4);
            push_u32(&mut out, *i);
            push_string(&mut out, s);
        },
        ServerNotice::CommandCompleted(i, c) => {
            push_u8(&mut out, 5);
            push_u32(&mut out, *i);
            push_i32(&mut out, *c);
        },
    }
    proof {
        assert(out@ =~= enc_server_msg(msg@));
    }
    out
}

/// Encodes one client message body, exactly as [`enc_client_msg`] says.
pub fn encode_client_message(msg: &ClientMessage) -> (out: Vec<u8>)
    ensures
        out@ == enc_client_msg(msg@),
{
    let mut out: Vec<u8> = Vec::new();
    push_u32(&mut out, msg.id);
    match &msg.request {
        ClientRequest::RunCommand(s) => {
            push_u8(&mut out, 1);
            push_string(&mut out, s);
        },
    }
    proof {
        assert(out@ =~= enc_client_msg(msg@));
    }
    out
}

/// Wraps an encoded body in a frame: its length, then the body.
pub fn encode_frame(body: Vec<u8>) -> (out: Vec<u8>)
    ensures
        out@ == enc_frame(body@),
{
    let mut out: Vec<u8> = Vec::new();
    push_u64(&mut out, body.len() as u64);
    let ghost body0 = body@;
    let mut body = body;
    out.append(&mut body);
    proof {
        assert(out@ =~= enc_frame(body0));
    }
    out
}

// ---------------------------------------------------------------------
// The executable decoder.  Each reader consumes from `buf` at `pos` and
// mirrors the corresponding spec-level decoder exactly.
// ---------------------------------------------------------------------

fn read_u8(buf: &Vec<u8>, pos: usize) -> (r: Option<(u8, usize)>)
    requires
        pos <= buf@.len(),
    ensures
        match r {
            Some(p) => ({
                &&& dec_u8(buf@.skip(pos as int)) == Some((p.0, buf@.skip(p.1 as int)))
                &&& pos < p.1 <= buf@.len()
            }),
            None => dec_u8(buf@.skip(pos as int)) is None,
        },
{
    if buf.len() - pos >= 1 {
        let v = buf[pos];
        proof {
            assert(buf@.skip(pos as int)[0] == v);
            assert(buf@.skip(pos as int).skip(1) =~= buf@.skip(pos as int + 1));
        }
        Some((v, pos + 1))
    } else {
        None
    }
}

fn read_u32(buf: &Vec<u8>, pos: usize) -> (r: Option<(u32, usize)>)
    requires
        pos <= buf@.len(),
    ensures
        match r {
            Some(p) => ({
                &&& dec_u32(buf@.skip(pos as int)) == Some((p.0, buf@.skip(p.1 as int)))
                &&& pos < p.1 <= buf@.len()
            }),
            None => dec_u32(buf@.skip(pos as int)) is None,
        },
{
    if buf.len() - pos >= 4 {
        let v = u32_from_le_bytes(slice_subrange(buf.as_slice(), pos, pos + 4));
        proof {
            assert(buf@.skip(pos as int).take(4) =~= buf@.subrange(pos as int, pos as int + 4));
            assert(buf@.skip(pos as int).skip(4) =~= buf@.skip(pos as int + 4));
        }
        Some((v, pos + 4))
    } else {
        None
    }
}

fn read_u64(buf: &Vec<u8>, pos: usize) -> (r: Option<(u64, usize)>)
    requires
        pos <= buf@.len(),
    ensures
        match r {
            Some(p) => ({
                &&& dec_u64(buf@.skip(pos as int)) == Some((p.0, buf@.skip(p.1 as int)))
                &&& pos < p.1 <= buf@.len()
            }),
            None => dec_u64(buf@.skip(pos as int)) is None,
        },
{
    if buf.len() - pos >= 8 {
        let v = u64_from_le_bytes(slice_subrange(buf.as_slice(), pos, pos + 8));
        proof {
            assert(buf@.skip(pos as int).take(8) =~= buf@.subrange(pos as int, pos as int + 8));
            assert(buf@.skip(pos as int).skip(8) =~= buf@.skip(pos as int + 8));
        }
        Some((v, pos + 8))
    } else {
        None
    }
}

fn read_bytes(buf: &Vec<u8>, pos: usize) -> (r: Option<(Vec<u8>, usize)>)
    requires
        pos <= buf@.len(),
    ensures
        match r {
            Some(p) => ({
                &&& dec_bytes(buf@.skip(pos as int)) == Some((p.0@, buf@.skip(p.1 as int)))
                &&& pos < p.1 <= buf@.len()
            }),
            None => dec_bytes(buf@.skip(pos as int)) is None,
        },
{
    match read_u64(buf, pos) {
        None => None,
        Some((n, p1)) => {
            let avail = buf.len() - p1;
            if n <= avail as u64 {
                let end = p1 + (n as usize);
                let v = slice_to_vec(slice_subrange(buf.as_slice(), p1, end));
                proof {
                    assert(buf@.skip(p1 as int).take(n as int) =~= buf@.subrange(
                        p1 as int,
                        end as int,
                    ));
                    assert(buf@.skip(p1 as int).skip(n as int) =~= buf@.skip(end as int));
                }
                Some((v, end))
            } else {
                None
            }
        },
    }
}

/// Relies on `String::from_utf8`: it returns `Ok` exactly when the bytes
/// are valid UTF-8, and then the string holds those bytes' characters;
/// vstd's own specification of `str::from_utf8_unchecked` states the same
/// relation between the byte and character forms.
#[verifier::external_body]
fn string_from_utf8(bytes: Vec<u8>) -> (r: Option<String>)
    ensures
        r is Some <==> valid_utf8(bytes@),
        r matches Some(s) ==> s@ == decode_utf8(bytes@),
{
    String::from_utf8(bytes).ok()
}

fn read_string(buf: &Vec<u8>, pos: usize) -> (r: Option<(String, usize)>)
    requires
        pos <= buf@.len(),
    ensures
        match r {
            Some(p) => ({
                &&& dec_str(buf@.skip(pos as int)) == Some((p.0@, buf@.skip(p.1 as int)))
                &&& pos < p.1 <= buf@.len()
            }),
            None => dec_str(buf@.skip(pos as int)) is None,
        },
{
    match read_bytes(buf, pos) {
        None => None,
        Some((bv, end)) => match string_from_utf8(bv) {
            None => None,
            Some(s) => Some((s, end)),
        },
    }
}

fn read_i32(buf: &Vec<u8>, pos: usize) -> (r: Option<(i32, usize)>)
    requires
        pos <= buf@.len(),
    ensures
        match r {
            Some(p) => ({
                &&& dec_i32(buf@.skip(pos as int)) == Some((p.0, buf@.skip(p.1 as int)))
                &&& pos < p.1 <= buf@.len()
            }),
            None => dec_i32(buf@.skip(pos as int)) is None,
        },
{
    match read_u8(buf, pos) {
        None => None,
        Some((sign, p1)) => match read_u32(buf, p1) {
            None => None,
            Some((mag, p2)) => {
                if sign == 0 {
                    if mag <= i32::MAX as u32 {
                        Some((mag as i32, p2))
                    } else {
                        None
                    }
                } else if sign == 1 {
                    if 1 <= mag && mag <= 0x8000_0000u32 {
                        let c = (-(mag as i64)) as i32;
                        Some((c, p2))
                    } else {
                        None
                    }
                } else {
                    None
                }
            },
        },
    }
}

fn read_status(buf: &Vec<u8>, pos: usize) -> (r: Option<(Option<i32>, usize)>)
    requires
        pos <= buf@.len(),
    ensures
        match r {
            Some(p) => ({
                &&& dec_status(buf@.skip(pos as int)) == Some((p.0, buf@.skip(p.1 as int)))
                &&& pos < p.1 <= buf@.len()
            }),
            None => dec_status(buf@.skip(pos as int)) is None,
        },
{
    match read_u8(buf, pos) {
        None => None,
        Some((tag, p1)) => {
            if tag == 0 {
                Some((None, p1))
            } else if tag == 1 {
                match read_i32(buf, p1) {
                    None => None,
                    Some((c, p2)) => Some((Some(c), p2)),
                }
            } else {
                None
            }
        },
    }
}

fn read_command(buf: &Vec<u8>, pos: usize) -> (r: Option<(WeaverCommand, usize)>)
    requires
        pos <= buf@.len(),
    ensures
        match r {
            Some(p) => ({
                &&& dec_command(buf@.skip(pos as int)) == Some((p.0@, buf@.skip(p.1 as int)))
                &&& pos < p.1 <= buf@.len()
            }),
            None => dec_command(buf@.skip(pos as int)) is None,
        },
{
    match read_string(buf, pos) {
        None => None,
        Some((cmd, p1)) => match read_string(buf, p1) {
            None => None,
            Some((stdout, p2)) => match read_string(buf, p2) {
                None => None,
                Some((stderr, p3)) => match read_status(buf, p3) {
                    None => None,
                    Some((status, p4)) => Some((WeaverCommand { cmd, stdout, stderr, status }, p4)),
                },
            },
        },
    }
}

fn read_pairs(buf: &Vec<u8>, pos: usize, n: u64) -> (r: Option<
    (Vec<(CommandId, WeaverCommand)>, usize),
>)
    requires
        pos <= buf@.len(),
    ensures
        match r {
            Some(p) => ({
                &&& dec_pairs(buf@.skip(pos as int), n as nat) == Some(
                    (pairs_view(p.0@), buf@.skip(p.1 as int)),
                )
                &&& pos <= p.1 <= buf@.len()
            }),
            None => dec_pairs(buf@.skip(pos as int), n as nat) is None,
        },
{
    let mut acc: Vec<(CommandId, WeaverCommand)> = Vec::new();
    let mut cur: usize = pos;
    let mut j: u64 = 0;
    while j < n
        invariant
            pos <= cur <= buf@.len(),
            j <= n,
            match dec_pairs(buf@.skip(cur as int), (n - j) as nat) {
                Some(q) => dec_pairs(buf@.skip(pos as int), n as nat) == Some(
                    (pairs_view(acc@) + q.0, q.1),
                ),
                None => dec_pairs(buf@.skip(pos as int), n as nat) is None,
            },
        decreases n - j,
    {
        match read_u32(buf, cur) {
            None => {
                return None;
            },
            Some((id, p1)) => match read_command(buf, p1) {
                None => {
                    return None;
                },
                Some((c, p2)) => {
                    let ghost old_acc = acc@;
                    acc.push((id, c));
                    proof {
                        let sfx = dec_pairs(buf@.skip(p2 as int), (n - j - 1) as nat);
                        assert(pairs_view(acc@) =~= pairs_view(old_acc).push((id, c@)));
                        if sfx is Some {
                            let q = sfx->0;
                            assert(pairs_view(old_acc) + (seq![(id, c@)] + q.0) =~= pairs_view(
                                acc@,
                            ) + q.0);
                        }
                    }
                    cur = p2;
                    j = j + 1;
                },
            },
        }
    }
    proof {
        assert(pairs_view(acc@) + Seq::<(CommandId, WeaverCommandV)>::empty() =~= pairs_view(
            acc@,
        ));
    }
    Some((acc, cur))
}

fn read_notice(buf: &Vec<u8>, pos: usize) -> (r: Option<(ServerNotice, usize)>)
    requires
        pos <= buf@.len(),
    ensures
        match r {
            Some(p) => ({
                &&& dec_notice(buf@.skip(pos as int)) == Some((p.0@, buf@.skip(p.1 as int)))
                &&& pos < p.1 <= buf@.len()
            }),
            None => dec_notice(buf@.skip(pos as int)) is None,
        },
{
    match read_u8(buf, pos) {
        None => None,
        Some((tag, p1)) => {
            if tag == 1 {
                match read_u64(buf, p1) {
                    None => None,
                    Some((n, p2)) => match read_pairs(buf, p2, n) {
                        None => None,
                        Some((l, p3)) => Some((ServerNotice::CommandsBulk(l), p3)),
                    },
                }
            } else if tag == 2 {
                match read_u32(buf, p1) {
                    None => None,
                    Some((i, p2)) => match read_string(buf, p2) {
                        None => None,
                        Some((s, p3)) => Some((ServerNotice::CommandStarted(i, s), p3)),
                    },
                }
            } else if tag == 3 {
                match read_u32(buf, p1) {
                    None => None,
                    Some((i, p2)) => match read_string(buf, p2) {
                        None => None,
                        Some((s, p3)) => Some((ServerNotice::CommandOutput(i, s), p3)),
                    },
                }
            } else if tag == 4 {
                match read_u32(buf, p1) {
                    None => None,
                    Some((i, p2)) => match read_string(buf, p2) {
                        None => None,
                        Some((s, p3)) => Some((ServerNotice::CommandErr(i, s), p3)),
                    },
                }
            } else if tag == 5 {
                match read_u32(buf, p1) {
                    None => None,
                    Some((i, p2)) => match read_i32(buf, p2) {
                        None => None,
                        Some((c, p3)) => Some((ServerNotice::CommandCompleted(i, c), p3)),
                    },
                }
            } else {
                None
            }
        },
    }
}

/// Decodes one server message from a whole frame body.  Trailing bytes
/// after the message are an error: a frame carries exactly one message.
pub fn decode_server_message(buf: &Vec<u8>) -> (r: Option<ServerMessage>)
    ensures
        r matches Some(m) ==> (dec_server_msg(buf@) matches Some(p) && p.0 == m@ && p.1.len()
            == 0),
        r is None ==> (dec_server_msg(buf@) is None || (dec_server_msg(buf@) matches Some(p)
            && p.1.len() != 0)),
{
    proof {
        assert(buf@.skip(0) =~= buf@);
    }
    match read_u32(buf, 0) {
        None => None,
        Some((id, p1)) => match read_notice(buf, p1) {
            None => None,
            Some((notice, p2)) => {
                if p2 == buf.len() {
                    Some(ServerMessage { id, notice })
                } else {
                    None
                }
            },
        },
    }
}

/// Decodes one client message from a whole frame body; trailing bytes are
/// an error.
pub fn decode_client_message(buf: &Vec<u8>) -> (r: Option<ClientMessage>)
    ensures
        r matches Some(m) ==> (dec_client_msg(buf@) matches Some(p) && p.0 == m@ && p.1.len()
            == 0),
        r is None ==> (dec_client_msg(buf@) is None || (dec_client_msg(buf@) matches Some(p)
            && p.1.len() != 0)),
{
    proof {
        assert(buf@.skip(0) =~= buf@);
    }
    match read_u32(buf, 0) {
        None => None,
        Some((id, p1)) => match read_u8(buf, p1) {
            None => None,
            Some((tag, p2)) => {
                if tag == 1 {
                    match read_string(buf, p2) {
                        None => None,
                        Some((s, p3)) => {
                            if p3 == buf.len() {
                                Some(ClientMessage { id, request: ClientRequest::RunCommand(s) })
                            } else {
                                None
                            }
                        },
                    }
                } else {
                    None
                }
            },
        },
    }
}

// ---------------------------------------------------------------------
// Stream reassembly: buffers raw socket bytes and cuts them into whole
// frame bodies.
// ---------------------------------------------------------------------

/// Reassembles a byte stream into frames.  Feed it what the socket
/// yields, in order; take complete frame bodies out as they become
/// available.  Its view is the bytes buffered and not yet cut.
pub struct FrameDecoder {
    buf: Vec<u8>,
}

impl View for FrameDecoder {
    type V = Seq<u8>;

    closed spec fn view(&self) -> Seq<u8> {
        self.buf@
    }
}

impl FrameDecoder {
    /// An empty reassembly buffer.
    pub fn new() -> (r: Self)
        ensures
            r@ == Seq::<u8>::empty(),
    {
        let r = FrameDecoder { buf: Vec::new() };
        proof {
            assert(r@ =~= Seq::<u8>::empty());
        }
        r
    }

    /// Appends newly received bytes to the buffer.
    pub fn feed(&mut self, data: &Vec<u8>)
        ensures
            final(self)@ == old(self)@ + data@,
    {
        self.buf.extend_from_slice(data.as_slice());
    }

    /// Cuts one complete frame body off the front of the buffer, if the
    /// buffer holds one; otherwise leaves the buffer unchanged (more bytes
    /// are needed).
    pub fn try_frame(&mut self) -> (r: Option<Vec<u8>>)
        ensures
            match r {
                Some(body) => dec_bytes(old(self)@) == Some((body@, final(self)@)),
                None => dec_bytes(old(self)@) is None && final(self)@ == old(self)@,
            },
{
        proof {
            assert(self.buf@.skip(0) =~= self.buf@);
        }
        match read_bytes(&self.buf, 0) {
            None => None,
            Some((body, end)) => {
                let rest = slice_to_vec(slice_subrange(self.buf.as_slice(), end, self.buf.len()));
                proof {
                    assert(self.buf@.subrange(end as int, self.buf@.len() as int) =~= self.buf@.skip(
                        end as int,
                    ));
                }
                self.buf = rest;
                Some(body)
            },
        }
    }
}

} // verus!
