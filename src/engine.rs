//! The answer to one inbound packet: foreign pings are mirrored, marked ones
//! drive the peer's session and carry its queued message back.

use crate::codec::{
    be_bytes, decode_request, decode_spec, echo_reply, encode_reply, HEADER_LEN, MAX_PACKET_LEN,
};
use crate::framing::{
    classify, classify_spec, is_marked, marker, trailing, Inbound, InboundView, MARKER_LEN,
};
use crate::registry::{has_label, index_of, registered, App, AppView};
use crate::session::{
    after_message, after_submit, fresh_session, outbound_payload, queued_bytes, EntryView,
    RecipientView,
};
use vstd::prelude::*;
use vstd::utf8::valid_utf8;

verus! {

/// The reply packet that carries `payload`, if it fits in one packet.
pub open spec fn reply_for(identifier: u16, sequence: u16, payload: Seq<u8>) -> Option<Seq<u8>> {
    if payload.len() + HEADER_LEN <= MAX_PACKET_LEN {
        Some(echo_reply(identifier, sequence, payload))
    } else {
        None
    }
}

/// The session of `peer` once its marked `payload` has been taken in: a
/// message is recorded and unblocks the session; a probe, or trailing bytes
/// that are not text, change nothing.
pub open spec fn ingest(r: RecipientView, payload: Seq<u8>) -> RecipientView {
    match classify_spec(payload) {
        InboundView::Message(t) => after_message(r, t),
        _ => r,
    }
}

/// The sessions after the packet `raw` from `peer`.
pub open spec fn step_sessions(
    s: Seq<RecipientView>,
    peer: Seq<char>,
    raw: Seq<u8>,
) -> Seq<RecipientView> {
    match decode_spec(raw) {
        Some(req) if is_marked(req.payload) => {
            let reg = registered(s, peer);
            let i = index_of(reg, peer);
            reg.update(i, ingest(reg[i], req.payload))
        },
        _ => s,
    }
}

/// The reply to the packet `raw` from `peer`: none to what is not an Echo
/// Request; the request mirrored when it is foreign; else the marker and the
/// peer's queued message, read after the packet was taken in.
pub open spec fn step_reply(
    s: Seq<RecipientView>,
    peer: Seq<char>,
    raw: Seq<u8>,
) -> Option<Seq<u8>> {
    match decode_spec(raw) {
        None => None,
        Some(req) => if !is_marked(req.payload) {
            reply_for(req.identifier, req.sequence, req.payload)
        } else {
            let after = step_sessions(s, peer, raw);
            reply_for(
                req.identifier,
                req.sequence,
                outbound_payload(after[index_of(after, peer)]),
            )
        },
    }
}

/// A foreign Echo Request leaves the sessions alone and is answered by an
/// Echo Reply of the same length with the same identifier, sequence number
/// and payload: apart from type and code, only the checksum differs.
pub proof fn lemma_foreign_mirrored(s: Seq<RecipientView>, peer: Seq<char>, raw: Seq<u8>)
    requires
        decode_spec(raw) is Some,
        !is_marked(decode_spec(raw).unwrap().payload),
        raw.len() <= MAX_PACKET_LEN,
    ensures
        step_sessions(s, peer, raw) == s,
        step_reply(s, peer, raw) matches Some(reply) && {
            &&& reply.len() == raw.len()
            &&& reply[0] == 0 && reply[1] == 0
            &&& reply.subrange(4, raw.len() as int) == raw.subrange(4, raw.len() as int)
        },
{
    let req = decode_spec(raw).unwrap();
    let reply = echo_reply(req.identifier, req.sequence, req.payload);
    lemma_reply_fields(req.identifier, req.sequence, req.payload);
    assert(reply.subrange(4, raw.len() as int) =~= raw.subrange(4, raw.len() as int));
}

/// What every Echo Reply holds: type and code zero, identifier and sequence
/// number in big-endian order, then the payload.
proof fn lemma_reply_fields(identifier: u16, sequence: u16, payload: Seq<u8>)
    ensures
        echo_reply(identifier, sequence, payload).len() == HEADER_LEN + payload.len(),
        echo_reply(identifier, sequence, payload)[0] == 0,
        echo_reply(identifier, sequence, payload)[1] == 0,
        echo_reply(identifier, sequence, payload).subrange(4, 8) == be_bytes(identifier)
            + be_bytes(sequence),
        echo_reply(identifier, sequence, payload).subrange(
            HEADER_LEN as int,
            HEADER_LEN + payload.len(),
        ) == payload,
{
    let r = echo_reply(identifier, sequence, payload);
    assert(r.subrange(4, 8) =~= be_bytes(identifier) + be_bytes(sequence));
    assert(r.subrange(HEADER_LEN as int, HEADER_LEN + payload.len()) =~= payload);
}

/// The reply to a marked Echo Request has the request's identifier and
/// sequence number.
pub proof fn lemma_marked_keeps_ids(s: Seq<RecipientView>, peer: Seq<char>, raw: Seq<u8>)
    requires
        decode_spec(raw) is Some,
        is_marked(decode_spec(raw).unwrap().payload),
    ensures
        step_reply(s, peer, raw) matches Some(reply) ==> reply.subrange(4, 8) == raw.subrange(
            4,
            8,
        ),
{
    let req = decode_spec(raw).unwrap();
    let after = step_sessions(s, peer, raw);
    let payload = outbound_payload(after[index_of(after, peer)]);
    lemma_reply_fields(req.identifier, req.sequence, payload);
    assert(raw.subrange(4, 8) =~= be_bytes(req.identifier) + be_bytes(req.sequence));
}

/// A probe from a peer whose session is idle, or that has none yet, leaves
/// the session idle with its transcript as it was, and is answered with
/// the marker alone; a second identical probe changes nothing more and gets
/// the same answer.
pub proof fn lemma_probe_idempotent(s: Seq<RecipientView>, peer: Seq<char>, raw: Seq<u8>)
    requires
        decode_spec(raw) matches Some(req) && req.payload == marker(),
        has_label(s, peer) ==> s[index_of(s, peer)].is_idle(),
    ensures
        step_sessions(s, peer, raw) == registered(s, peer),
        registered(s, peer)[index_of(registered(s, peer), peer)].is_idle(),
        step_reply(s, peer, raw) == Some(
            echo_reply(
                decode_spec(raw).unwrap().identifier,
                decode_spec(raw).unwrap().sequence,
                marker(),
            ),
        ),
        step_sessions(registered(s, peer), peer, raw) == registered(s, peer),
        step_reply(registered(s, peer), peer, raw) == step_reply(s, peer, raw),
{
    let req = decode_spec(raw).unwrap();
    assert(marker().subrange(0, MARKER_LEN as int) =~= marker());
    let reg = registered(s, peer);
    if !has_label(s, peer) {
        assert(reg[s.len() as int].label == peer);
    }
    let i = index_of(reg, peer);
    assert(reg[i].label == peer);
    assert(reg.update(i, reg[i]) =~= reg);
    assert(has_label(reg, peer));
    assert(queued_bytes(reg[i]) =~= Seq::<u8>::empty());
    assert(outbound_payload(reg[i]) =~= marker());
}

/// An operator submission and a peer message on one idle session, applied
/// one after the other in either order, both reach the transcript, in the
/// order they were applied.
pub proof fn lemma_submit_and_message_both_recorded(
    r: RecipientView,
    text: Seq<char>,
    msg: Seq<char>,
)
    requires
        r.is_idle(),
        text.len() > 0,
    ensures
        after_message(after_submit(r, text), msg).history == r.history.push(
            EntryView::Outbound(text),
        ).push(EntryView::Inbound(msg)),
        after_message(after_submit(r, text), msg).is_idle(),
        after_submit(after_message(r, msg), text).history == r.history.push(
            EntryView::Inbound(msg),
        ).push(EntryView::Outbound(text)),
        after_submit(after_message(r, msg), text).pending == Some(text),
{
}

/// Marked trailing bytes that are not UTF-8 leave a known peer's session as
/// it was (state, queue and transcript), and the peer is still answered
/// with its queued message.
pub proof fn lemma_garbled_data_ignored(s: Seq<RecipientView>, peer: Seq<char>, raw: Seq<u8>)
    requires
        has_label(s, peer),
        decode_spec(raw) matches Some(req) && is_marked(req.payload) && req.payload.len()
            > MARKER_LEN && !valid_utf8(trailing(req.payload)),
    ensures
        step_sessions(s, peer, raw) == s,
        step_reply(s, peer, raw) == reply_for(
            decode_spec(raw).unwrap().identifier,
            decode_spec(raw).unwrap().sequence,
            outbound_payload(s[index_of(s, peer)]),
        ),
{
    let i = index_of(s, peer);
    assert(s[i].label == peer);
    assert(s.update(i, s[i]) =~= s);
}

/// The first marked packet from an unknown peer appends one session for it
/// after all known ones, which stay as they were; the new session starts
/// idle with an empty transcript before the packet is taken in.
pub proof fn lemma_new_peer_appended(s: Seq<RecipientView>, peer: Seq<char>, raw: Seq<u8>)
    requires
        !has_label(s, peer),
        decode_spec(raw) matches Some(req) && is_marked(req.payload),
    ensures
        step_sessions(s, peer, raw).len() == s.len() + 1,
        step_sessions(s, peer, raw).subrange(0, s.len() as int) == s,
        step_sessions(s, peer, raw).last() == ingest(
            fresh_session(peer),
            decode_spec(raw).unwrap().payload,
        ),
{
    let reg = registered(s, peer);
    assert(reg[s.len() as int].label == peer);
    let i = index_of(reg, peer);
    assert(reg[i].label == peer);
    assert(i == s.len());
    assert(step_sessions(s, peer, raw).subrange(0, s.len() as int) =~= s);
}

impl App {
    /// Takes in one packet `raw` from `peer` and returns the reply to send:
    /// `None` when `raw` is no Echo Request or the reply would not fit in a
    /// packet.
    pub fn process_packet(&mut self, peer: &String, raw: &[u8]) -> (r: Option<Vec<u8>>)
        requires
            old(self)@.wf(),
        ensures
            final(self)@.wf(),
            final(self)@ == (AppView {
                sessions: step_sessions(old(self)@.sessions, peer@, raw@),
                ..old(self)@
            }),
            r is None <==> step_reply(old(self)@.sessions, peer@, raw@) is None,
            r matches Some(v) ==> step_reply(old(self)@.sessions, peer@, raw@) == Some(v@),
    {
        let req = match decode_request(raw) {
            None => return None,
            Some(req) => req,
        };
        let ghost s = self@.sessions;
        let kind = classify(req.payload.as_slice());
        let idx = match kind {
            Inbound::Foreign => {
                if req.payload.len() > MAX_PACKET_LEN - HEADER_LEN {
                    return None;
                }
                return Some(encode_reply(req.identifier, req.sequence, req.payload.as_slice()));
            },
            Inbound::Message(text) => {
                let idx = self.lookup_or_create(peer);
                self.receive(idx, text);
                idx
            },
            _ => self.lookup_or_create(peer),
        };
        proof {
            let reg = registered(s, peer@);
            assert(self@.sessions =~= step_sessions(s, peer@, raw@));
            let after = self@.sessions;
            assert(after[idx as int].label == peer@);
            let k = index_of(after, peer@);
            assert(after[k].label == peer@);
            assert(k == idx);
        }
        let payload = self.outbound_payload(idx);
        if payload.len() > MAX_PACKET_LEN - HEADER_LEN {
            return None;
        }
        Some(encode_reply(req.identifier, req.sequence, payload.as_slice()))
    }
}

} // verus!
