//! The reserved marker that tells tunnel traffic from ordinary pings, and
//! the classification of inbound payloads.

use vstd::prelude::*;
use vstd::utf8::{decode_utf8, valid_utf8};

verus! {

/// Length of the marker that opens every tunnel payload.
pub const MARKER_LEN: usize = 24;

/// Byte `i` of the marker: nine zero bytes, the ASCII tag `icmpsh`, nine
/// zero bytes.
pub open spec fn marker_byte_spec(i: int) -> u8 {
    if i == 9 {
        0x69u8
    } else if i == 10 {
        0x63u8
    } else if i == 11 {
        0x6du8
    } else if i == 12 {
        0x70u8
    } else if i == 13 {
        0x73u8
    } else if i == 14 {
        0x68u8
    } else {
        0u8
    }
}

/// The marker as a byte sequence.
pub open spec fn marker() -> Seq<u8> {
    Seq::new(MARKER_LEN as nat, |i: int| marker_byte_spec(i))
}

/// Whether `payload` opens with the marker.
pub open spec fn is_marked(payload: Seq<u8>) -> bool {
    payload.len() >= MARKER_LEN && payload.subrange(0, MARKER_LEN as int) == marker()
}

/// The bytes of a marked payload that follow the marker.
pub open spec fn trailing(payload: Seq<u8>) -> Seq<u8> {
    payload.subrange(MARKER_LEN as int, payload.len() as int)
}

/// The text, if any, that `bytes` encode as UTF-8.
pub open spec fn text_of(bytes: Seq<u8>) -> Option<Seq<char>> {
    if valid_utf8(bytes) {
        Some(decode_utf8(bytes))
    } else {
        None
    }
}

fn marker_byte(i: usize) -> (r: u8)
    ensures
        r == marker_byte_spec(i as int),
{
    if i == 9 {
        0x69
    } else if i == 10 {
        0x63
    } else if i == 11 {
        0x6d
    } else if i == 12 {
        0x70
    } else if i == 13 {
        0x73
    } else if i == 14 {
        0x68
    } else {
        0
    }
}

/// The marker, as bytes to send.
pub fn marker_bytes() -> (r: Vec<u8>)
    ensures
        r@ == marker(),
{
    let mut r: Vec<u8> = Vec::new();
    let mut i: usize = 0;
    while i < MARKER_LEN
        invariant
            i <= MARKER_LEN,
            r@ == marker().subrange(0, i as int),
        decreases MARKER_LEN - i,
    {
        r.push(marker_byte(i));
        i = i + 1;
        assert(r@ =~= marker().subrange(0, i as int));
    }
    assert(r@ =~= marker());
    r
}

/// Whether `payload` opens with the marker.
pub fn starts_with_marker(payload: &[u8]) -> (r: bool)
    ensures
        r == is_marked(payload@),
{
    if payload.len() < MARKER_LEN {
        return false;
    }
    let mut i: usize = 0;
    while i < MARKER_LEN
        invariant
            i <= MARKER_LEN <= payload@.len(),
            forall|j: int| 0 <= j < i ==> payload@[j] == marker()[j],
        decreases MARKER_LEN - i,
    {
        if payload[i] != marker_byte(i) {
            assert(payload@.subrange(0, MARKER_LEN as int)[i as int] != marker()[i as int]);
            return false;
        }
        i = i + 1;
    }
    assert(payload@.subrange(0, MARKER_LEN as int) =~= marker());
    true
}

/// Relies on String::from_utf8: the bytes become a `String` when they are
/// valid UTF-8, and are refused otherwise.
#[verifier::external_body]
fn decode_text(bytes: Vec<u8>) -> (r: Option<String>)
    ensures
        r matches Some(s) ==> text_of(bytes@) == Some(s@),
        r is None <==> text_of(bytes@) is None,
{
    String::from_utf8(bytes).ok()
}

/// What an inbound Echo Request payload is to the tunnel.
pub enum Inbound {
    /// Not tunnel traffic: no marker.
    Foreign,
    /// The marker alone: a peer checking in.
    Probe,
    /// The marker and a message in UTF-8.
    Message(String),
    /// The marker and trailing bytes that are not UTF-8.
    Garbled,
}

/// The mathematical content of an [`Inbound`].
pub enum InboundView {
    Foreign,
    Probe,
    Message(Seq<char>),
    Garbled,
}

impl View for Inbound {
    type V = InboundView;

    open spec fn view(&self) -> InboundView {
        match self {
            Inbound::Foreign => InboundView::Foreign,
            Inbound::Probe => InboundView::Probe,
            Inbound::Message(s) => InboundView::Message(s@),
            Inbound::Garbled => InboundView::Garbled,
        }
    }
}

/// How an inbound payload is classified.
pub open spec fn classify_spec(payload: Seq<u8>) -> InboundView {
    if !is_marked(payload) {
        InboundView::Foreign
    } else if payload.len() == MARKER_LEN {
        InboundView::Probe
    } else {
        match text_of(trailing(payload)) {
            Some(t) => InboundView::Message(t),
            None => InboundView::Garbled,
        }
    }
}

/// Classifies an inbound Echo Request payload as foreign traffic, a probe,
/// a message, or trailing bytes that are not text.
pub fn classify(payload: &[u8]) -> (r: Inbound)
    ensures
        r@ == classify_spec(payload@),
{
    if !starts_with_marker(payload) {
        return Inbound::Foreign;
    }
    if payload.len() == MARKER_LEN {
        return Inbound::Probe;
    }
    let mut data: Vec<u8> = Vec::new();
    let mut i: usize = MARKER_LEN;
    while i < payload.len()
        invariant
            MARKER_LEN <= i <= payload@.len(),
            data@ == payload@.subrange(MARKER_LEN as int, i as int),
        decreases payload@.len() - i,
    {
        data.push(payload[i]);
        i = i + 1;
        assert(data@ =~= payload@.subrange(MARKER_LEN as int, i as int));
    }
    match decode_text(data) {
        Some(s) => Inbound::Message(s),
        None => Inbound::Garbled,
    }
}

} // verus!
