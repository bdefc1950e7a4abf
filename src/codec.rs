//! ICMP Echo packets: the Internet checksum, decoding of Echo Requests and
//! encoding of Echo Replies.

use vstd::arithmetic::div_mod::{lemma_fundamental_div_mod, lemma_mod_multiples_vanish};
use vstd::prelude::*;

verus! {

/// Size of the ICMP Echo header: type, code, checksum, identifier, sequence.
pub const HEADER_LEN: usize = 8;

/// ICMP type of an Echo Request.
pub const ECHO_REQUEST: u8 = 8;

/// Largest packet the codec handles: the payload of one IPv4 datagram.
pub const MAX_PACKET_LEN: usize = 65535;

/// The `i`-th big-endian 16-bit word of `data`; a last odd byte is padded
/// with a zero byte, and words past the end are zero.
pub open spec fn word_at(data: Seq<u8>, i: int) -> nat {
    if 0 <= 2 * i && 2 * i + 1 < data.len() {
        data[2 * i] as nat * 256 + data[2 * i + 1] as nat
    } else if 0 <= 2 * i && 2 * i < data.len() {
        data[2 * i] as nat * 256
    } else {
        0
    }
}

/// Number of 16-bit words in `data`, counting a last odd byte as one.
pub open spec fn word_count(data: Seq<u8>) -> nat {
    ((data.len() + 1) / 2) as nat
}

/// Sum of the words of `data` below index `n`, with word `skip` read as zero.
pub open spec fn word_sum(data: Seq<u8>, n: nat, skip: int) -> nat
    decreases n,
{
    if n == 0 {
        0
    } else {
        word_sum(data, (n - 1) as nat, skip) + if n - 1 == skip {
            0
        } else {
            word_at(data, n - 1)
        }
    }
}

/// One folding of the carries above 16 bits back into the low 16 bits.
pub open spec fn fold_carry(s: nat) -> nat {
    s / 65536 + s % 65536
}

/// The Internet checksum (one's complement of the one's-complement sum of
/// the 16-bit words) of `data`, word `skip` read as zero; zero for no data.
pub open spec fn checksum_of(data: Seq<u8>, skip: int) -> u16 {
    if data.len() == 0 {
        0
    } else {
        (65535 - fold_carry(fold_carry(word_sum(data, word_count(data), skip)))) as u16
    }
}

/// Relies on pnet::packet::util::checksum: sums the big-endian words of
/// `data` (the odd last byte padded), word `skipword` left out, folds the
/// carries and complements; zero for empty data.
#[verifier::external_body]
fn pnet_checksum(data: &[u8], skipword: usize) -> (r: u16)
    requires
        data@.len() <= MAX_PACKET_LEN,
    ensures
        r == checksum_of(data@, skipword as int),
{
    pnet::packet::util::checksum(data, skipword)
}

/// Sums that agree on every word but the skipped one are equal.
proof fn lemma_word_sum_agree(a: Seq<u8>, b: Seq<u8>, n: nat, skip: int)
    requires
        forall|i: int| 0 <= i < n && i != skip ==> word_at(a, i) == word_at(b, i),
    ensures
        word_sum(a, n, skip) == word_sum(b, n, skip),
    decreases n,
{
    if n > 0 {
        lemma_word_sum_agree(a, b, (n - 1) as nat, skip);
    }
}

/// Leaving word `k` out of a sum that skips nothing below `n` subtracts it.
proof fn lemma_word_sum_unskip(d: Seq<u8>, n: nat, k: int, none: int)
    requires
        0 <= k < n <= none,
    ensures
        word_sum(d, n, none) == word_sum(d, n, k) + word_at(d, k),
    decreases n,
{
    if n - 1 > k {
        lemma_word_sum_unskip(d, (n - 1) as nat, k, none);
    }
    if n - 1 == k {
        lemma_word_sum_agree(d, d, (n - 1) as nat, k);
        lemma_word_sum_skip_beyond(d, (n - 1) as nat, k, none);
    }
}

/// A skipped index at or past `n` leaves the sum as it is.
proof fn lemma_word_sum_skip_beyond(d: Seq<u8>, n: nat, s1: int, s2: int)
    requires
        n <= s1,
        n <= s2,
    ensures
        word_sum(d, n, s1) == word_sum(d, n, s2),
    decreases n,
{
    if n > 0 {
        lemma_word_sum_skip_beyond(d, (n - 1) as nat, s1, s2);
    }
}

/// Each word is at most 65535, so a sum of `n` words is at most `65535 * n`.
proof fn lemma_word_sum_bound(d: Seq<u8>, n: nat, skip: int)
    ensures
        word_sum(d, n, skip) <= 65535 * n,
    decreases n,
{
    if n > 0 {
        lemma_word_sum_bound(d, (n - 1) as nat, skip);
    }
}

/// Folding a carry keeps the value modulo 65535 and keeps it non-zero.
proof fn lemma_fold_carry(s: nat)
    requires
        s < 0x1_0000_0000,
    ensures
        fold_carry(s) <= 131070,
        s <= 131070 ==> fold_carry(s) <= 65535,
        fold_carry(s) % 65535 == s % 65535,
        (fold_carry(s) == 0) == (s == 0),
{
    lemma_fundamental_div_mod(s as int, 65536);
    let q = s / 65536;
    let r = s % 65536;
    assert(s == 65535 * q + (q + r));
    lemma_mod_multiples_vanish(q as int, (q + r) as int, 65535);
}

/// The Internet checksum of an Echo Reply checks out: summing the whole
/// packet, its checksum field included, gives a checksum of zero.
pub proof fn lemma_reply_checksum_valid(identifier: u16, sequence: u16, payload: Seq<u8>)
    requires
        payload.len() + HEADER_LEN <= MAX_PACKET_LEN,
    ensures
        checksum_valid(echo_reply(identifier, sequence, payload)),
{
    let p = reply_header(identifier, sequence, 0) + payload;
    let c = checksum_of(p, 1);
    let q = echo_reply(identifier, sequence, payload);
    let n = word_count(p);
    let none = usize::MAX as int;
    assert(q.len() == p.len());
    assert forall|i: int| 0 <= i < n && i != 1 implies word_at(q, i) == word_at(p, i) by {
        if 0 <= 2 * i && 2 * i + 1 < p.len() {
            assert(q[2 * i] == p[2 * i] && q[2 * i + 1] == p[2 * i + 1]);
        } else if 0 <= 2 * i && 2 * i < p.len() {
            assert(q[2 * i] == p[2 * i]);
        }
    }
    lemma_word_sum_agree(q, p, n, 1);
    lemma_word_sum_unskip(q, n, 1, none);
    lemma_word_sum_bound(p, n, 1);
    assert(n <= 32768);
    assert(65535 * n <= 65535 * 32768) by (nonlinear_arith)
        requires n <= 32768;
    let s = word_sum(p, n, 1);
    lemma_fold_carry(s);
    lemma_fold_carry(fold_carry(s));
    let g = fold_carry(fold_carry(s));
    assert(c == 65535 - g);
    assert(word_at(q, 1) == c) by {
        assert(q[2] == (c / 256) as u8 && q[3] == (c % 256) as u8);
    }
    let t = word_sum(q, n, none);
    assert(t == s + c);
    lemma_fundamental_div_mod(s as int, 65535);
    lemma_fundamental_div_mod(g as int, 65535);
    let k = s / 65535 - g / 65535 + 1;
    assert(t == 65535 * k);
    lemma_mod_multiples_vanish(k, 0, 65535);
    lemma_fold_carry(t);
    lemma_fold_carry(fold_carry(t));
    let h = fold_carry(fold_carry(t));
    assert(t > 0);
    lemma_fundamental_div_mod(h as int, 65535);
    assert(h == 65535);
}

/// Big-endian 16-bit value of the two bytes at `at`.
pub open spec fn be16(data: Seq<u8>, at: int) -> u16 {
    (data[at] as nat * 256 + data[at + 1] as nat) as u16
}

/// The two big-endian bytes of `v`.
pub open spec fn be_bytes(v: u16) -> Seq<u8> {
    seq![(v / 256) as u8, (v % 256) as u8]
}

/// A decoded Echo Request, as plain values.
pub struct EchoRequest {
    pub identifier: u16,
    pub sequence: u16,
    pub payload: Vec<u8>,
}

/// The mathematical content of an [`EchoRequest`].
pub struct RequestView {
    pub identifier: u16,
    pub sequence: u16,
    pub payload: Seq<u8>,
}

impl View for EchoRequest {
    type V = RequestView;

    open spec fn view(&self) -> RequestView {
        RequestView {
            identifier: self.identifier,
            sequence: self.sequence,
            payload: self.payload@,
        }
    }
}

/// What `raw` decodes to: an Echo Request when it holds a whole header of
/// that type, nothing otherwise.
pub open spec fn decode_spec(raw: Seq<u8>) -> Option<RequestView> {
    if raw.len() < HEADER_LEN || raw[0] != ECHO_REQUEST {
        None
    } else {
        Some(
            RequestView {
                identifier: be16(raw, 4),
                sequence: be16(raw, 6),
                payload: raw.subrange(HEADER_LEN as int, raw.len() as int),
            },
        )
    }
}

/// Echo Reply header (type 0, code 0) with the given checksum.
pub open spec fn reply_header(identifier: u16, sequence: u16, checksum: u16) -> Seq<u8> {
    seq![0u8, 0u8] + be_bytes(checksum) + be_bytes(identifier) + be_bytes(sequence)
}

/// The Echo Reply carrying `payload`, with a freshly computed checksum over
/// the header (checksum field zero) and the payload.
pub open spec fn echo_reply(identifier: u16, sequence: u16, payload: Seq<u8>) -> Seq<u8> {
    reply_header(
        identifier,
        sequence,
        checksum_of(reply_header(identifier, sequence, 0) + payload, 1),
    ) + payload
}

/// A packet whose checksum is right: the checksum over all of it, the
/// checksum field included, is zero.
pub open spec fn checksum_valid(packet: Seq<u8>) -> bool {
    packet.len() >= HEADER_LEN && checksum_of(packet, usize::MAX as int) == 0
}

/// Decodes an ICMP Echo Request; `None` on a short buffer or another type.
pub fn decode_request(raw: &[u8]) -> (r: Option<EchoRequest>)
    ensures
        r matches Some(req) ==> decode_spec(raw@) == Some(req@),
        r is None <==> decode_spec(raw@) is None,
{
    if raw.len() < HEADER_LEN || raw[0] != ECHO_REQUEST {
        return None;
    }
    let identifier = (raw[4] as u16) * 256 + raw[5] as u16;
    let sequence = (raw[6] as u16) * 256 + raw[7] as u16;
    let mut payload: Vec<u8> = Vec::new();
    let mut i: usize = HEADER_LEN;
    while i < raw.len()
        invariant
            HEADER_LEN <= i <= raw@.len(),
            payload@ == raw@.subrange(HEADER_LEN as int, i as int),
        decreases raw@.len() - i,
    {
        payload.push(raw[i]);
        i = i + 1;
        assert(payload@ =~= raw@.subrange(HEADER_LEN as int, i as int));
    }
    let req = EchoRequest { identifier, sequence, payload };
    assert(req@ == decode_spec(raw@).unwrap());
    Some(req)
}

/// Builds the Echo Reply that carries `payload` under the given identifier
/// and sequence number, its checksum computed over the whole packet.
pub fn encode_reply(identifier: u16, sequence: u16, payload: &[u8]) -> (r: Vec<u8>)
    requires
        payload@.len() + HEADER_LEN <= MAX_PACKET_LEN,
    ensures
        r@ == echo_reply(identifier, sequence, payload@),
        r@.len() == HEADER_LEN + payload@.len(),
{
    let mut buf: Vec<u8> = Vec::new();
    buf.push(0);
    buf.push(0);
    buf.push(0);
    buf.push(0);
    buf.push((identifier / 256) as u8);
    buf.push((identifier % 256) as u8);
    buf.push((sequence / 256) as u8);
    buf.push((sequence % 256) as u8);
    assert(buf@ =~= reply_header(identifier, sequence, 0));
    let mut i: usize = 0;
    while i < payload.len()
        invariant
            i <= payload@.len(),
            buf@ == reply_header(identifier, sequence, 0) + payload@.subrange(0, i as int),
        decreases payload@.len() - i,
    {
        buf.push(payload[i]);
        i = i + 1;
        assert(buf@ =~= reply_header(identifier, sequence, 0) + payload@.subrange(0, i as int));
    }
    assert(payload@.subrange(0, payload@.len() as int) =~= payload@);
    let checksum = pnet_checksum(buf.as_slice(), 1);
    buf.set(2, (checksum / 256) as u8);
    buf.set(3, (checksum % 256) as u8);
    assert(buf@ =~= echo_reply(identifier, sequence, payload@));
    buf
}

/// Tells whether the checksum of `packet` is right.
pub fn verify_checksum(packet: &[u8]) -> (r: bool)
    requires
        packet@.len() <= MAX_PACKET_LEN,
    ensures
        r == checksum_valid(packet@),
{
    if packet.len() < HEADER_LEN {
        return false;
    }
    pnet_checksum(packet, usize::MAX) == 0
}

} // verus!
