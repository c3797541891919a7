//! ICMP Echo Request construction, reply classification and the Internet
//! checksum.
use vstd::prelude::*;
use vstd::arithmetic::div_mod::{lemma_fundamental_div_mod, lemma_mod_multiples_vanish};

verus! {

/// Relies on rand::random to draw the identifier that marks a run's Echo
/// Requests as its own; nothing is known of the value drawn.
pub assume_specification<T>[ rand::random::<T> ]() -> (r: T)
    where
        rand::distributions::Standard: rand::distributions::Distribution<T>,
;

/// Length in bytes of an outgoing Echo Request: header and zero payload.
pub const ECHO_REQUEST_LEN: usize = 64;

/// ICMP type of an Echo Request.
pub const ICMP_ECHO_REQUEST: u8 = 8;

/// ICMP type of an Echo Reply.
pub const ICMP_ECHO_REPLY: u8 = 0;

/// ICMP type of a Time Exceeded message.
pub const ICMP_TIME_EXCEEDED: u8 = 11;

/// The 16-bit big-endian word that starts at byte `i`; a trailing odd byte
/// is the high byte of a word whose low byte is zero.
pub open spec fn word_at(s: Seq<u8>, i: int) -> int {
    if i + 1 < s.len() {
        s[i] as int * 256 + s[i + 1] as int
    } else {
        s[i] as int * 256
    }
}

/// Sum of the words that start at `i`, `i + 2`, ... up to the end of `s`.
pub open spec fn word_sum_from(s: Seq<u8>, i: int) -> int
    decreases s.len() + 1 - i,
{
    if i < 0 || i >= s.len() {
        0
    } else {
        word_at(s, i) + word_sum_from(s, i + 2)
    }
}

/// Folds the carries above bit 16 back into the low 16 bits until none remain.
pub open spec fn fold_carries(x: nat) -> nat
    decreases x,
{
    if x < 0x10000 {
        x
    } else {
        fold_carries((x % 0x10000 + x / 0x10000) as nat)
    }
}

/// The same fold in closed form: zero stays zero, anything else lands in
/// 1..=0xFFFF with the same remainder modulo 0xFFFF.
pub open spec fn ones_fold(x: int) -> int {
    if x == 0 {
        0
    } else {
        (x - 1) % 0xFFFF + 1
    }
}

/// The Internet checksum of `s`: the one's complement of its folded word sum.
pub open spec fn checksum_spec(s: Seq<u8>) -> int {
    0xFFFF - fold_carries(word_sum_from(s, 0) as nat)
}

proof fn lemma_word_sum_nonneg(s: Seq<u8>, i: int)
    ensures
        word_sum_from(s, i) >= 0,
    decreases s.len() + 1 - i,
{
    if 0 <= i < s.len() {
        lemma_word_sum_nonneg(s, i + 2);
    }
}

/// Adding a multiple of 0xFFFF to a positive value keeps its fold.
proof fn lemma_ones_fold_shift(y: int, q: int)
    requires
        y > 0,
        q >= 0,
    ensures
        ones_fold(y + 0xFFFF * q) == ones_fold(y),
{
    lemma_mod_multiples_vanish(q, y - 1, 0xFFFF);
    assert(y + 0xFFFF * q - 1 == 0xFFFF * q + (y - 1));
}

proof fn lemma_fold_carries_closed(x: nat)
    ensures
        fold_carries(x) == ones_fold(x as int),
        fold_carries(x) <= 0xFFFF,
    decreases x,
{
    if x >= 0x10000 {
        let q = x / 0x10000;
        let y = x % 0x10000 + q;
        lemma_fundamental_div_mod(x as int, 0x10000);
        assert(x == y + 0xFFFF * q);
        lemma_fold_carries_closed(y as nat);
        lemma_ones_fold_shift(y as int, q as int);
    }
}

/// Folding the carries of a partial sum does not change the fold of the total.
proof fn lemma_reduce_step(a: int, rest: int)
    requires
        a >= 0,
        rest >= 0,
    ensures
        ones_fold(a % 0x10000 + a / 0x10000 + rest) == ones_fold(a + rest),
{
    let q = a / 0x10000;
    let b = a % 0x10000 + q;
    lemma_fundamental_div_mod(a, 0x10000);
    assert(a == b + 0xFFFF * q);
    if b + rest > 0 {
        lemma_ones_fold_shift(b + rest, q);
        assert(a + rest == b + rest + 0xFFFF * q);
    }
}

/// Computes the Internet checksum of `data`.
pub fn internet_checksum(data: &[u8]) -> (r: u16)
    ensures
        r as int == checksum_spec(data@),
{
    let mut sum: u32 = 0;
    let mut i: usize = 0;
    proof {
        lemma_word_sum_nonneg(data@, 0);
    }
    while i < data.len()
        invariant
            i <= data.len(),
            sum < 0x20000,
            word_sum_from(data@, 0) >= 0,
            ones_fold(sum + word_sum_from(data@, i as int)) == ones_fold(word_sum_from(data@, 0)),
        decreases data.len() - i,
    {
        let word: u32;
        let next: usize;
        if i + 1 < data.len() {
            word = data[i] as u32 * 256 + data[i + 1] as u32;
            next = i + 2;
        } else {
            word = data[i] as u32 * 256;
            next = data.len();
        }
        proof {
            assert(word_sum_from(data@, i as int) == word + word_sum_from(data@, i + 2));
            assert(word_sum_from(data@, next as int) == word_sum_from(data@, i + 2));
            lemma_word_sum_nonneg(data@, next as int);
            lemma_reduce_step(sum + word, word_sum_from(data@, next as int));
        }
        let total = sum + word;
        sum = total % 0x10000 + total / 0x10000;
        i = next;
    }
    proof {
        lemma_fold_carries_closed(sum as nat);
        lemma_fold_carries_closed(word_sum_from(data@, 0) as nat);
    }
    while sum >= 0x10000
        invariant
            fold_carries(sum as nat) == fold_carries(word_sum_from(data@, 0) as nat),
        decreases sum,
    {
        sum = sum % 0x10000 + sum / 0x10000;
    }
    (0xFFFF - sum) as u16
}

/// Two sequences that agree from `i` on have the same word sum from `i`.
proof fn lemma_word_sum_agree(s: Seq<u8>, t: Seq<u8>, i: int)
    requires
        s.len() == t.len(),
        i >= 0,
        forall|j: int| i <= j < s.len() ==> s[j] == t[j],
    ensures
        word_sum_from(s, i) == word_sum_from(t, i),
    decreases s.len() + 1 - i,
{
    if i < s.len() {
        lemma_word_sum_agree(s, t, i + 2);
    }
}

/// Writes `c` big-endian into the checksum field (bytes 2 and 3) of `s`.
pub open spec fn with_checksum(s: Seq<u8>, c: int) -> Seq<u8> {
    s.update(2, (c / 256) as u8).update(3, (c % 256) as u8)
}

/// A packet whose checksum field was zero when its checksum was computed,
/// and which then carries that checksum, has a checksum of zero.
pub proof fn lemma_checksum_round_trip(s: Seq<u8>)
    requires
        s.len() >= 4,
        s[2] == 0,
        s[3] == 0,
    ensures
        checksum_spec(with_checksum(s, checksum_spec(s))) == 0,
{
    let t = with_checksum(s, checksum_spec(s));
    lemma_word_sum_nonneg(s, 0);
    lemma_word_sum_nonneg(s, 4);
    let total = word_sum_from(s, 0);
    lemma_fold_carries_closed(total as nat);
    let c = checksum_spec(s);
    assert(0 <= c <= 0xFFFF);
    lemma_word_sum_agree(s, t, 4);
    assert(word_sum_from(s, 2) == word_at(s, 2) + word_sum_from(s, 4));
    assert(word_sum_from(s, 0) == word_at(s, 0) + word_sum_from(s, 2));
    assert(word_sum_from(t, 2) == word_at(t, 2) + word_sum_from(t, 4));
    assert(word_sum_from(t, 0) == word_at(t, 0) + word_sum_from(t, 2));
    assert(word_at(t, 0) == word_at(s, 0));
    assert(word_at(t, 2) == c);
    let t_total = total + c;
    assert(word_sum_from(t, 0) == t_total);
    lemma_fold_carries_closed(t_total as nat);
    if total > 0 {
        let f = ones_fold(total);
        lemma_fundamental_div_mod(total - 1, 0xFFFF);
        let q = (total - 1) / 0xFFFF;
        assert(t_total - 1 == 0xFFFF * q + 0xFFFE);
        lemma_mod_multiples_vanish(q, 0xFFFE, 0xFFFF);
    }
}

/// The Echo Request with identifier `id` and sequence `seq` before its
/// checksum is written: type 8, code 0, checksum field zero, zero payload.
pub open spec fn echo_template(id: u16, seq: u16) -> Seq<u8> {
    Seq::new(
        ECHO_REQUEST_LEN as nat,
        |i: int|
            if i == 0 {
                ICMP_ECHO_REQUEST
            } else if i == 4 {
                (id / 256) as u8
            } else if i == 5 {
                (id % 256) as u8
            } else if i == 6 {
                (seq / 256) as u8
            } else if i == 7 {
                (seq % 256) as u8
            } else {
                0u8
            },
    )
}

/// Builds the Echo Request with identifier `id` and sequence `seq`, carrying
/// its checksum.
pub fn encode_echo_request(id: u16, seq: u16) -> (r: Vec<u8>)
    ensures
        r@ == with_checksum(echo_template(id, seq), checksum_spec(echo_template(id, seq))),
        checksum_spec(r@) == 0,
{
    let mut v: Vec<u8> = Vec::new();
    let mut i: usize = 0;
    while i < ECHO_REQUEST_LEN
        invariant
            i <= ECHO_REQUEST_LEN,
            v@.len() == i,
            forall|j: int| 0 <= j < i ==> v@[j] == 0,
        decreases ECHO_REQUEST_LEN - i,
    {
        v.push(0);
        i = i + 1;
    }
    v.set(0, ICMP_ECHO_REQUEST);
    v.set(4, (id / 256) as u8);
    v.set(5, (id % 256) as u8);
    v.set(6, (seq / 256) as u8);
    v.set(7, (seq % 256) as u8);
    assert(v@ =~= echo_template(id, seq));
    let c = internet_checksum(v.as_slice());
    v.set(2, (c / 256) as u8);
    v.set(3, (c % 256) as u8);
    assert(v@ =~= with_checksum(echo_template(id, seq), checksum_spec(echo_template(id, seq))));
    proof {
        lemma_checksum_round_trip(echo_template(id, seq));
    }
    v
}

/// What an inbound ICMP message says, as far as probing is concerned.
#[derive(Clone, Copy, Debug, PartialEq, Eq, Structural)]
pub enum IcmpReply {
    /// The probed host answered.
    EchoReply { id: u16, seq: u16 },
    /// A router on the way dropped the probe when its TTL ran out.
    TimeExceeded,
    /// Any other type, or a message too short to read: no usable reply.
    Other,
}

/// The 16-bit big-endian value at bytes `i` and `i + 1` of `s`.
pub open spec fn be16_at(s: Seq<u8>, i: int) -> u16 {
    (s[i] as int * 256 + s[i + 1] as int) as u16
}

/// Classification of an ICMP message (starting at its type byte).
pub open spec fn icmp_reply_spec(m: Seq<u8>) -> IcmpReply {
    if m.len() < 8 {
        IcmpReply::Other
    } else if m[0] == ICMP_ECHO_REPLY {
        IcmpReply::EchoReply { id: be16_at(m, 4), seq: be16_at(m, 6) }
    } else if m[0] == ICMP_TIME_EXCEEDED {
        IcmpReply::TimeExceeded
    } else {
        IcmpReply::Other
    }
}

/// Length in bytes of the IPv4 header that starts `d`, if `d` holds one.
pub open spec fn ipv4_header_len(d: Seq<u8>) -> int {
    (d[0] % 16) as int * 4
}

/// Classification of an IPv4 datagram that carries an ICMP message.
pub open spec fn datagram_reply_spec(d: Seq<u8>) -> IcmpReply {
    if d.len() < 20 || ipv4_header_len(d) < 20 || ipv4_header_len(d) > d.len() {
        IcmpReply::Other
    } else {
        icmp_reply_spec(d.subrange(ipv4_header_len(d), d.len() as int))
    }
}

fn read_be16(b: &[u8], i: usize) -> (r: u16)
    requires
        i + 1 < b@.len(),
    ensures
        r == be16_at(b@, i as int),
{
    (b[i] as u16) * 256 + b[i + 1] as u16
}

/// Classifies the ICMP message that starts at byte `start` of `b`.
fn parse_icmp_at(b: &[u8], start: usize) -> (r: IcmpReply)
    requires
        start <= b@.len(),
    ensures
        r == icmp_reply_spec(b@.subrange(start as int, b@.len() as int)),
{
    let ghost m = b@.subrange(start as int, b@.len() as int);
    if b.len() - start < 8 {
        IcmpReply::Other
    } else if b[start] == ICMP_ECHO_REPLY {
        let id = read_be16(b, start + 4);
        let seq = read_be16(b, start + 6);
        assert(be16_at(m, 4) == be16_at(b@, start + 4));
        assert(be16_at(m, 6) == be16_at(b@, start + 6));
        IcmpReply::EchoReply { id, seq }
    } else if b[start] == ICMP_TIME_EXCEEDED {
        IcmpReply::TimeExceeded
    } else {
        IcmpReply::Other
    }
}

/// Classifies an ICMP message given without its IP header.
pub fn parse_icmp(m: &[u8]) -> (r: IcmpReply)
    ensures
        r == icmp_reply_spec(m@),
{
    assert(m@.subrange(0, m@.len() as int) =~= m@);
    parse_icmp_at(m, 0)
}

/// Classifies an IPv4 datagram, as a raw ICMP socket hands it over.
pub fn parse_datagram(d: &[u8]) -> (r: IcmpReply)
    ensures
        r == datagram_reply_spec(d@),
{
    if d.len() < 20 {
        return IcmpReply::Other;
    }
    let header_len = ((d[0] % 16) as usize) * 4;
    if header_len < 20 || header_len > d.len() {
        IcmpReply::Other
    } else {
        parse_icmp_at(d, header_len)
    }
}

} // verus!
