//! DNS messages for looking up a host's IPv4 address: the query that asks
//! for its A record and the reading of the answer.
use vstd::prelude::*;
use crate::canvas::{decimal, push_decimal};

verus! {

/// Why an answer could not be read.
#[derive(Clone, Copy, PartialEq, Eq, Structural, Debug)]
pub enum DnsError {
    /// Shorter than a DNS header.
    PacketTooShort,
    /// Nothing follows the question.
    NoAnswer,
    /// The answer's name is not a compression pointer.
    Unsupported,
    /// The answer's data is not four bytes long.
    NotARecord,
    /// The answer ends before its fields do.
    Truncated,
}

/// The fixed header of a query: id 0x1234, recursion desired, one question.
pub open spec fn query_header() -> Seq<u8> {
    seq![0x12u8, 0x34, 0x01, 0x00, 0x00, 0x01, 0x00, 0x00, 0x00, 0x00, 0x00, 0x00]
}

/// The first position at or after `i` that holds a dot, or the end.
pub open spec fn label_end(b: Seq<u8>, i: int) -> int
    decreases b.len() - i,
{
    if i < 0 || i >= b.len() || b[i] == 46 {
        i
    } else {
        label_end(b, i + 1)
    }
}

/// The dot-separated parts of a name from `i` on, each as its length byte
/// followed by its bytes.
pub open spec fn labels_from(b: Seq<u8>, i: int) -> Seq<u8>
    decreases b.len() - i,
{
    let e = label_end(b, i);
    if i < 0 || i > b.len() || e < i || e > b.len() {
        Seq::empty()
    } else {
        let part = b.subrange(i, e);
        let enc = seq![part.len() as u8] + part;
        if e == b.len() {
            enc
        } else {
            enc + labels_from(b, e + 1)
        }
    }
}

/// The query for the A record of a name, given as its bytes.
pub open spec fn query_bytes(name: Seq<u8>) -> Seq<u8> {
    query_header() + labels_from(name, 0) + seq![0u8, 0x00, 0x01, 0x00, 0x01]
}

proof fn lemma_label_end_bounds(b: Seq<u8>, i: int)
    requires
        0 <= i <= b.len(),
    ensures
        i <= label_end(b, i) <= b.len(),
    decreases b.len() - i,
{
    if i < b.len() && b[i] != 46 {
        lemma_label_end_bounds(b, i + 1);
    }
}

/// The query that asks for the IPv4 address of a domain.
pub fn build_query(domain: &str) -> (r: Vec<u8>)
    ensures
        r@ == query_bytes(vstd::utf8::encode_utf8(domain@)),
{
    let b = domain.as_bytes();
    let ghost name = b@;
    let n = b.len();
    let mut packet: Vec<u8> = Vec::new();
    packet.push(0x12);
    packet.push(0x34);
    packet.push(0x01);
    packet.push(0x00);
    packet.push(0x00);
    packet.push(0x01);
    let mut k: usize = 0;
    while k < 6
        invariant
            k <= 6,
            packet@ == seq![0x12u8, 0x34, 0x01, 0x00, 0x00, 0x01] + Seq::new(k as nat, |j: int| 0u8),
        decreases 6 - k,
    {
        packet.push(0x00);
        k = k + 1;
        assert(packet@ =~= seq![0x12u8, 0x34, 0x01, 0x00, 0x00, 0x01] + Seq::new(k as nat, |j: int| 0u8));
    }
    assert(packet@ =~= query_header());
    let mut i: usize = 0;
    loop
        invariant_except_break
            i <= n,
            query_header() + labels_from(name, 0) == packet@ + labels_from(name, i as int),
        invariant
            n == name.len(),
            name == b@,
        ensures
            packet@ == query_header() + labels_from(name, 0),
        decreases n - i,
    {
        let mut e = i;
        while e < n && b[e] != 46
            invariant
                i <= e <= n,
                n == b@.len(),
                label_end(b@, e as int) == label_end(b@, i as int),
            decreases n - e,
        {
            e = e + 1;
        }
        let ghost before = packet@;
        packet.push((e - i) as u8);
        assert(packet@ =~= before + seq![(e - i) as u8] + b@.subrange(i as int, i as int));
        let mut j = i;
        while j < e
            invariant
                i <= j <= e <= n,
                n == b@.len(),
                packet@ == before + seq![(e - i) as u8] + b@.subrange(i as int, j as int),
            decreases e - j,
        {
            packet.push(b[j]);
            assert(b@.subrange(i as int, j + 1) =~= b@.subrange(i as int, j as int).push(b@[j as int]));
            assert(packet@ =~= before + seq![(e - i) as u8] + b@.subrange(i as int, j + 1));
            j = j + 1;
        }
        let ghost part = name.subrange(i as int, e as int);
        assert(part.len() == e - i);
        if e == n {
            assert(labels_from(name, i as int) == seq![part.len() as u8] + part);
            assert(packet@ =~= before + labels_from(name, i as int));
            break;
        }
        assert(labels_from(name, i as int) == seq![part.len() as u8] + part + labels_from(name, e + 1));
        assert(packet@ + labels_from(name, e + 1) =~= before + labels_from(name, i as int));
        i = e + 1;
    }
    let ghost mid = packet@;
    packet.push(0);
    packet.push(0x00);
    packet.push(0x01);
    packet.push(0x00);
    packet.push(0x01);
    assert(packet@ =~= mid + seq![0u8, 0x00, 0x01, 0x00, 0x01]);
    packet
}


/// The position after a name that starts at `pos` (its labels end with a
/// zero byte), or the end of the message if it runs past it.
pub open spec fn skip_name(b: Seq<u8>, pos: int) -> int
    decreases b.len() - pos,
{
    if pos < 0 || pos >= b.len() {
        b.len() as int
    } else if b[pos] == 0 {
        pos + 1
    } else {
        let next = pos + 1 + b[pos];
        if next >= b.len() {
            b.len() as int
        } else {
            skip_name(b, next)
        }
    }
}

proof fn lemma_skip_name_bounds(b: Seq<u8>, pos: int)
    requires
        0 <= pos,
    ensures
        skip_name(b, pos) <= b.len(),
    decreases b.len() - pos,
{
    if 0 <= pos < b.len() && b[pos] != 0 && pos + 1 + b[pos] < b.len() {
        lemma_skip_name_bounds(b, pos + 1 + b[pos]);
    }
}

/// An IPv4 address in dotted decimal.
pub open spec fn dotted(a: u8, b: u8, c: u8, d: u8) -> Seq<char> {
    decimal(a as nat) + seq!['.'] + decimal(b as nat) + seq!['.'] + decimal(c as nat) + seq!['.']
        + decimal(d as nat)
}

/// The address in an answer: after the 12-byte header and the question
/// (a name, type and class), the answer's name must be a compression
/// pointer; after its type, class and TTL comes the data length, which must
/// be 4, and the four address bytes.
pub open spec fn answer_model(b: Seq<u8>) -> Result<Seq<char>, DnsError> {
    if b.len() < 12 {
        Err(DnsError::PacketTooShort)
    } else {
        let q = skip_name(b, 12) + 4;
        if q >= b.len() {
            Err(DnsError::NoAnswer)
        } else if b[q] & 0xC0 != 0xC0 {
            Err(DnsError::Unsupported)
        } else {
            let p = q + 10;
            if p + 2 > b.len() {
                Err(DnsError::Truncated)
            } else if b[p] != 0 || b[p + 1] != 4 {
                Err(DnsError::NotARecord)
            } else if p + 6 > b.len() {
                Err(DnsError::Truncated)
            } else {
                Ok(dotted(b[p + 2], b[p + 3], b[p + 4], b[p + 5]))
            }
        }
    }
}

/// Reads the IPv4 address from a DNS answer.
pub fn parse_response(buffer: &[u8]) -> (r: Result<String, DnsError>)
    ensures
        match answer_model(buffer@) {
            Ok(t) => r is Ok && r->Ok_0@ == t,
            Err(e) => r == Err::<String, DnsError>(e),
        },
{
    let n = buffer.len();
    if n < 12 {
        return Err(DnsError::PacketTooShort);
    }
    let mut pos: usize = 12;
    while pos < n && buffer[pos] != 0
        invariant
            n == buffer@.len(),
            12 <= pos <= n,
            skip_name(buffer@, pos as int) == skip_name(buffer@, 12),
        decreases n - pos,
    {
        let len = buffer[pos] as usize;
        if len >= n - pos - 1 {
            pos = n;
        } else {
            pos = pos + 1 + len;
        }
    }
    if pos < n {
        pos = pos + 1;
    }
    proof {
        lemma_skip_name_bounds(buffer@, 12);
    }
    assert(pos == skip_name(buffer@, 12));
    if n - pos <= 4 {
        return Err(DnsError::NoAnswer);
    }
    let q = pos + 4;
    if buffer[q] & 0xC0 != 0xC0 {
        return Err(DnsError::Unsupported);
    }
    if n - q < 12 {
        return Err(DnsError::Truncated);
    }
    let p = q + 10;
    if buffer[p] != 0 || buffer[p + 1] != 4 {
        return Err(DnsError::NotARecord);
    }
    if n - p < 6 {
        return Err(DnsError::Truncated);
    }
    let mut ip = String::new();
    push_decimal(&mut ip, buffer[p + 2] as u64);
    ip.push('.');
    push_decimal(&mut ip, buffer[p + 3] as u64);
    ip.push('.');
    push_decimal(&mut ip, buffer[p + 4] as u64);
    ip.push('.');
    push_decimal(&mut ip, buffer[p + 5] as u64);
    assert(ip@ =~= dotted(buffer@[p + 2], buffer@[p + 3], buffer@[p + 4], buffer@[p + 5]));
    Ok(ip)
}

} // verus!
