//! The slice of the DNS wire format that the resolver reads and rewrites.
//!
//! A message starts with a 12-byte header (transaction id, flags, section
//! counts), followed by the question section and the answer section. The
//! resolver only ever needs to: read the header, extract a normalized query
//! key from the first question, decide whether an answer section carries an
//! address record, and rewrite the transaction id of a reply. Everything here
//! works on plain bytes; a malformed message is reported, never panicked on.

use vstd::prelude::*;

verus! {

/// Record type number of an IPv4 address record.
pub const TYPE_A: u16 = 1;

/// Record type number of an IPv6 address record.
pub const TYPE_AAAA: u16 = 28;

/// Length in bytes of a DNS message header.
pub const HEADER_LEN: usize = 12;

/// The big-endian 16-bit value held by two bytes.
pub open spec fn u16_of(hi: u8, lo: u8) -> u16 {
    ((hi as int) * 256 + (lo as int)) as u16
}

/// The fixed-size header of a DNS message.
#[derive(Clone, Copy, Debug, PartialEq, Eq, Structural)]
pub struct Header {
    pub id: u16,
    pub flags_hi: u8,
    pub flags_lo: u8,
    pub qdcount: u16,
    pub ancount: u16,
    pub nscount: u16,
    pub arcount: u16,
}

/// The header encoded in the first twelve bytes of a message.
pub open spec fn spec_header(d: Seq<u8>) -> Header
    recommends
        d.len() >= HEADER_LEN,
{
    Header {
        id: u16_of(d[0], d[1]),
        flags_hi: d[2],
        flags_lo: d[3],
        qdcount: u16_of(d[4], d[5]),
        ancount: u16_of(d[6], d[7]),
        nscount: u16_of(d[8], d[9]),
        arcount: u16_of(d[10], d[11]),
    }
}

/// The response code held in the low four bits of the second flag byte.
pub open spec fn spec_rcode(h: Header) -> u8 {
    h.flags_lo & 0x0F
}

/// The transaction id of a message.
pub open spec fn spec_id(d: Seq<u8>) -> u16
    recommends
        d.len() >= 2,
{
    u16_of(d[0], d[1])
}

/// The bytes of a message with its transaction id replaced.
pub open spec fn with_id(d: Seq<u8>, id: u16) -> Seq<u8>
    recommends
        d.len() >= 2,
{
    d.update(0, (id / 256) as u8).update(1, (id % 256) as u8)
}

/// Replacing the transaction id changes exactly the first two bytes, and the
/// rewritten message carries exactly the requested id.
pub proof fn lemma_with_id(d: Seq<u8>, id: u16)
    requires
        d.len() >= 2,
    ensures
        with_id(d, id).len() == d.len(),
        spec_id(with_id(d, id)) == id,
        forall|i: int| 2 <= i < d.len() ==> with_id(d, id)[i] == d[i],
{
    assert(u16_of((id / 256) as u8, (id % 256) as u8) == id) by {
        assert(id / 256 * 256 + id % 256 == id) by (nonlinear_arith);
    };
}

/// Reads the header, which is present exactly when twelve bytes are.
pub fn parse_header(d: &Vec<u8>) -> (h: Option<Header>)
    ensures
        h is Some <==> d@.len() >= HEADER_LEN,
        h is Some ==> h->Some_0 == spec_header(d@),
{
    if d.len() < HEADER_LEN {
        None
    } else {
        Some(
            Header {
                id: u16_from(d[0], d[1]),
                flags_hi: d[2],
                flags_lo: d[3],
                qdcount: u16_from(d[4], d[5]),
                ancount: u16_from(d[6], d[7]),
                nscount: u16_from(d[8], d[9]),
                arcount: u16_from(d[10], d[11]),
            },
        )
    }
}

/// Reads a big-endian 16-bit value from two bytes.
pub fn u16_from(hi: u8, lo: u8) -> (r: u16)
    ensures
        r == u16_of(hi, lo),
{
    (hi as u16) * 256 + (lo as u16)
}

/// The position just past an uncompressed domain name starting at `pos`:
/// length-prefixed labels of at most 63 bytes each, closed by a zero byte.
/// `None` when the bytes do not hold such a name (compression pointers are
/// not allowed where a query's question name is read, since nothing precedes
/// the question for a pointer to refer to).
pub open spec fn name_end(d: Seq<u8>, pos: int) -> Option<int>
    decreases d.len() - pos,
{
    if pos < 0 || pos >= d.len() {
        None
    } else if d[pos] == 0 {
        Some(pos + 1)
    } else if d[pos] >= 64 {
        None
    } else if pos + 1 + d[pos] > d.len() {
        None
    } else {
        name_end(d, pos + 1 + d[pos])
    }
}

/// The position just past a possibly compressed domain name starting at
/// `pos`: labels as in [`name_end`], but a compression pointer (top two bits
/// set, two bytes long) also closes the name.
pub open spec fn name_skip(d: Seq<u8>, pos: int) -> Option<int>
    decreases d.len() - pos,
{
    if pos < 0 || pos >= d.len() {
        None
    } else if d[pos] == 0 {
        Some(pos + 1)
    } else if d[pos] >= 192 {
        if pos + 2 <= d.len() {
            Some(pos + 2)
        } else {
            None
        }
    } else if d[pos] >= 64 {
        None
    } else if pos + 1 + d[pos] > d.len() {
        None
    } else {
        name_skip(d, pos + 1 + d[pos])
    }
}

/// The position just past `n` question entries starting at `pos`: each is a
/// name followed by a type and a class of two bytes each.
pub open spec fn questions_end(d: Seq<u8>, pos: int, n: nat) -> Option<int>
    decreases n,
{
    if n == 0 {
        Some(pos)
    } else {
        match name_skip(d, pos) {
            Option::None => None,
            Option::Some(e) => if e + 4 <= d.len() {
                questions_end(d, e + 4, (n - 1) as nat)
            } else {
                None
            },
        }
    }
}

/// Walks `n` answer records starting at `pos` and tells whether any carries
/// an address record type; `None` when the records do not parse.
pub open spec fn scan_answers(d: Seq<u8>, pos: int, n: nat) -> Option<bool>
    decreases n,
{
    if n == 0 {
        Some(false)
    } else {
        match name_skip(d, pos) {
            Option::None => None,
            Option::Some(e) => if e + 10 <= d.len() {
                let ty = u16_of(d[e], d[e + 1]);
                let rdlen = u16_of(d[e + 8], d[e + 9]);
                if e + 10 + rdlen <= d.len() {
                    match scan_answers(d, e + 10 + rdlen, (n - 1) as nat) {
                        Option::None => None,
                        Option::Some(rest) => Some(rest || ty == TYPE_A || ty == TYPE_AAAA),
                    }
                } else {
                    None
                }
            } else {
                None
            },
        }
    }
}

/// A byte with ASCII upper-case letters folded to lower case. DNS names
/// compare case-insensitively, so keys are normalized with this map.
pub open spec fn lower_byte(b: u8) -> u8 {
    if 65 <= b <= 90 {
        (b + 32) as u8
    } else {
        b
    }
}

/// A byte sequence folded to lower case.
pub open spec fn lower_bytes(s: Seq<u8>) -> Seq<u8> {
    s.map_values(|b: u8| lower_byte(b))
}

/// The normalized query key of a message: the lower-cased name bytes, type
/// and class of the first question. `None` when the message has no header,
/// no question, or a question that does not parse.
pub open spec fn spec_query_key(d: Seq<u8>) -> Option<(Seq<u8>, u16, u16)> {
    if d.len() < HEADER_LEN {
        None
    } else if spec_header(d).qdcount == 0 {
        None
    } else {
        match name_end(d, HEADER_LEN as int) {
            Option::None => None,
            Option::Some(e) => if e + 4 <= d.len() {
                Some(
                    (
                        lower_bytes(d.subrange(HEADER_LEN as int, e)),
                        u16_of(d[e], d[e + 1]),
                        u16_of(d[e + 2], d[e + 3]),
                    ),
                )
            } else {
                None
            },
        }
    }
}

/// How one upstream answer ranks: it carries an address record, it carries
/// answers but no address record, or it is of no use at all.
#[derive(Clone, Copy, Debug, PartialEq, Eq, Structural)]
pub enum ResponseClassification {
    WithAddress,
    WithoutAddress,
    Unusable,
}

/// The classification of a response's bytes: usable only when the header
/// parses, the response code reports success, and a non-empty answer section
/// parses; an address record in the answers then ranks it highest.
pub open spec fn spec_classify(d: Seq<u8>) -> ResponseClassification {
    if d.len() < HEADER_LEN {
        ResponseClassification::Unusable
    } else {
        let h = spec_header(d);
        if spec_rcode(h) != 0 || h.ancount == 0 {
            ResponseClassification::Unusable
        } else {
            match questions_end(d, HEADER_LEN as int, h.qdcount as nat) {
                Option::None => ResponseClassification::Unusable,
                Option::Some(apos) => match scan_answers(d, apos, h.ancount as nat) {
                    Option::None => ResponseClassification::Unusable,
                    Option::Some(true) => ResponseClassification::WithAddress,
                    Option::Some(false) => ResponseClassification::WithoutAddress,
                },
            }
        }
    }
}

/// A classification other than unusable implies at least a whole header.
pub proof fn lemma_classified_has_header(d: Seq<u8>)
    requires
        spec_classify(d) != ResponseClassification::Unusable,
    ensures
        d.len() >= HEADER_LEN,
{
}

/// Walks past an uncompressed domain name.
fn walk_name(d: &Vec<u8>, pos: usize) -> (r: Option<usize>)
    ensures
        match r {
            Option::Some(e) => name_end(d@, pos as int) == Some(e as int) && pos < e <= d@.len(),
            Option::None => name_end(d@, pos as int) is None,
        },
    decreases d@.len() - pos,
{
    if pos >= d.len() {
        None
    } else {
        let b = d[pos];
        if b == 0 {
            Some(pos + 1)
        } else if b >= 64 {
            None
        } else if (b as usize) > d.len() - pos - 1 {
            None
        } else {
            walk_name(d, pos + 1 + b as usize)
        }
    }
}

/// Walks past a possibly compressed domain name.
fn skip_name(d: &Vec<u8>, pos: usize) -> (r: Option<usize>)
    ensures
        match r {
            Option::Some(e) => name_skip(d@, pos as int) == Some(e as int) && pos < e <= d@.len(),
            Option::None => name_skip(d@, pos as int) is None,
        },
    decreases d@.len() - pos,
{
    if pos >= d.len() {
        None
    } else {
        let b = d[pos];
        if b == 0 {
            Some(pos + 1)
        } else if b >= 192 {
            if d.len() - pos >= 2 {
                Some(pos + 2)
            } else {
                None
            }
        } else if b >= 64 {
            None
        } else if (b as usize) > d.len() - pos - 1 {
            None
        } else {
            skip_name(d, pos + 1 + b as usize)
        }
    }
}

/// Walks past `n` question entries.
fn skip_questions(d: &Vec<u8>, pos: usize, n: u16) -> (r: Option<usize>)
    requires
        pos <= d@.len(),
    ensures
        match r {
            Option::Some(e) => questions_end(d@, pos as int, n as nat) == Some(e as int) && e
                <= d@.len(),
            Option::None => questions_end(d@, pos as int, n as nat) is None,
        },
    decreases n,
{
    if n == 0 {
        Some(pos)
    } else {
        match skip_name(d, pos) {
            Option::None => None,
            Option::Some(e) => {
                if d.len() - e >= 4 {
                    skip_questions(d, e + 4, n - 1)
                } else {
                    None
                }
            },
        }
    }
}

/// Walks `n` answer records and tells whether any carries an address record.
fn answers_have_addr(d: &Vec<u8>, pos: usize, n: u16) -> (r: Option<bool>)
    requires
        pos <= d@.len(),
    ensures
        match r {
            Option::Some(b) => scan_answers(d@, pos as int, n as nat) == Some(b),
            Option::None => scan_answers(d@, pos as int, n as nat) is None,
        },
    decreases n,
{
    if n == 0 {
        Some(false)
    } else {
        match skip_name(d, pos) {
            Option::None => None,
            Option::Some(e) => {
                if d.len() - e >= 10 {
                    let ty = u16_from(d[e], d[e + 1]);
                    let rdlen = u16_from(d[e + 8], d[e + 9]);
                    if d.len() - (e + 10) >= rdlen as usize {
                        match answers_have_addr(d, e + 10 + rdlen as usize, n - 1) {
                            Option::None => None,
                            Option::Some(rest) => Some(rest || ty == TYPE_A || ty == TYPE_AAAA),
                        }
                    } else {
                        None
                    }
                } else {
                    None
                }
            },
        }
    }
}

/// Classifies one upstream response from its bytes.
pub fn classify_response(d: &Vec<u8>) -> (c: ResponseClassification)
    ensures
        c == spec_classify(d@),
{
    match parse_header(d) {
        Option::None => ResponseClassification::Unusable,
        Option::Some(h) => {
            if h.flags_lo & 0x0F != 0 || h.ancount == 0 {
                ResponseClassification::Unusable
            } else {
                match skip_questions(d, HEADER_LEN, h.qdcount) {
                    Option::None => ResponseClassification::Unusable,
                    Option::Some(apos) => match answers_have_addr(d, apos, h.ancount) {
                        Option::None => ResponseClassification::Unusable,
                        Option::Some(true) => ResponseClassification::WithAddress,
                        Option::Some(false) => ResponseClassification::WithoutAddress,
                    },
                }
            }
        },
    }
}

/// A normalized query key: the unit of cached work, independent of the
/// transaction id and of letter case in the name.
#[derive(Debug)]
pub struct QueryKey {
    /// The question name as lower-cased wire bytes.
    pub name: Vec<u8>,
    /// The question's record type.
    pub qtype: u16,
    /// The question's record class.
    pub qclass: u16,
}

impl View for QueryKey {
    type V = (Seq<u8>, u16, u16);

    open spec fn view(&self) -> (Seq<u8>, u16, u16) {
        (self.name@, self.qtype, self.qclass)
    }
}

/// Folds one byte to lower case.
fn lower_ascii(b: u8) -> (r: u8)
    ensures
        r == lower_byte(b),
{
    if b >= 65 && b <= 90 {
        b + 32
    } else {
        b
    }
}

/// Extracts the normalized query key from an inbound datagram. `None` is a
/// malformed datagram, which the server drops without a reply.
pub fn extract_query_key(d: &Vec<u8>) -> (r: Option<QueryKey>)
    ensures
        match r {
            Option::Some(k) => spec_query_key(d@) == Some(k@),
            Option::None => spec_query_key(d@) is None,
        },
{
    match parse_header(d) {
        Option::None => None,
        Option::Some(h) => {
            if h.qdcount == 0 {
                None
            } else {
                match walk_name(d, HEADER_LEN) {
                    Option::None => None,
                    Option::Some(e) => {
                        if d.len() - e >= 4 {
                            let mut name: Vec<u8> = Vec::new();
                            let mut i: usize = HEADER_LEN;
                            while i < e
                                invariant
                                    HEADER_LEN <= i <= e <= d@.len(),
                                    name@ == lower_bytes(d@.subrange(HEADER_LEN as int, i as int)),
                                decreases e - i,
                            {
                                name.push(lower_ascii(d[i]));
                                i = i + 1;
                                proof {
                                    assert(d@.subrange(HEADER_LEN as int, i as int)
                                        =~= d@.subrange(HEADER_LEN as int, i - 1).push(
                                        d@[i - 1],
                                    ));
                                    assert(name@ =~= lower_bytes(
                                        d@.subrange(HEADER_LEN as int, i as int),
                                    ));
                                }
                            }
                            Some(
                                QueryKey {
                                    name,
                                    qtype: u16_from(d[e], d[e + 1]),
                                    qclass: u16_from(d[e + 2], d[e + 3]),
                                },
                            )
                        } else {
                            None
                        }
                    },
                }
            }
        },
    }
}

/// Compares two query keys for equality of name bytes, type and class.
pub fn key_eq(a: &QueryKey, b: &QueryKey) -> (r: bool)
    ensures
        r == (a@ == b@),
{
    if a.qtype != b.qtype || a.qclass != b.qclass || a.name.len() != b.name.len() {
        false
    } else {
        let n = a.name.len();
        let mut i: usize = 0;
        while i < n
            invariant
                0 <= i <= n,
                n == a.name@.len() == b.name@.len(),
                forall|j: int| 0 <= j < i ==> a.name@[j] == b.name@[j],
            decreases n - i,
        {
            if a.name[i] != b.name[i] {
                return false;
            }
            i = i + 1;
        }
        proof {
            assert(a.name@ =~= b.name@);
        }
        true
    }
}

/// A byte-for-byte copy of a buffer.
pub fn copy_bytes(v: &Vec<u8>) -> (r: Vec<u8>)
    ensures
        r@ == v@,
{
    let n = v.len();
    let mut r: Vec<u8> = Vec::new();
    let mut i: usize = 0;
    while i < n
        invariant
            0 <= i <= n == v@.len(),
            r@ == v@.subrange(0, i as int),
        decreases n - i,
    {
        r.push(v[i]);
        i = i + 1;
        proof {
            assert(v@.subrange(0, i as int) =~= v@.subrange(0, i - 1).push(v@[i - 1]));
        }
    }
    proof {
        assert(v@.subrange(0, n as int) =~= v@);
    }
    r
}

/// Overwrites the transaction id held in the first two bytes of a message.
pub fn rewrite_id(d: &mut Vec<u8>, id: u16)
    requires
        old(d)@.len() >= 2,
    ensures
        final(d)@ == with_id(old(d)@, id),
{
    let hi: u8 = (id / 256) as u8;
    let lo: u8 = (id % 256) as u8;
    d.set(0, hi);
    d.set(1, lo);
}

} // verus!
