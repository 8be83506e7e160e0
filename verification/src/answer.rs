//! Resource records — answer entries — and the local answer table.

use vstd::prelude::*;

use crate::error::DnsError;
use crate::message::{
    class_code, parse_labels, spec_class_from, spec_type_from, type_code, Class, RawMessage, Type,
};
use crate::name::{
    lemma_encoded_name_parses, push_name, spec_name_bytes, spec_parse_name, str_eq, wf_name_bytes,
};
use crate::question::{lemma_class_code_round, lemma_type_code_round};
use crate::wire::{lemma_u16_round, lemma_u32_round, read_u16, read_u32, u16_be, u16_of, u32_be,
    u32_of};

verus! {

use vstd::string::StringExecFns;
use vstd::utf8::{encode_utf8, decode_utf8, encode_utf8_decode_utf8, encode_utf8_valid_utf8};

/// A host address: four octets.
#[derive(Debug, Clone, Copy, PartialEq, Eq, Structural)]
pub struct Ipv4 {
    /// The first octet.
    pub a: u8,
    /// The second octet.
    pub b: u8,
    /// The third octet.
    pub c: u8,
    /// The fourth octet.
    pub d: u8,
}

impl Ipv4 {
    /// An address from its four octets.
    pub fn new(a: u8, b: u8, c: u8, d: u8) -> (r: Self)
        ensures
            r == (Ipv4 { a, b, c, d }),
    {
        Ipv4 { a, b, c, d }
    }

    /// The four octets, in order.
    pub fn octets(&self) -> (r: [u8; 4])
        ensures
            r@ == seq![self.a, self.b, self.c, self.d],
    {
        let r = [self.a, self.b, self.c, self.d];
        assert(r@ =~= seq![self.a, self.b, self.c, self.d]);
        r
    }
}

/// The decoded resource data of a record.  Only address records are
/// interpreted; the data of every other type is consumed but not decoded.
#[derive(Debug, Clone, Copy, PartialEq, Eq, Structural)]
pub enum Data {
    /// Data of a type this design does not decode.
    Unmapped,
    /// A host address.
    IP(Ipv4),
}

/// The mathematical value of a resource record.
pub ghost struct RrV {
    /// The domain name as dotted text.
    pub name: Seq<char>,
    /// The record type.
    pub atype: Type,
    /// The record class.
    pub class: Class,
    /// Time to live, treated as unsigned.
    pub ttl: u32,
    /// The declared resource-data length.
    pub length: u16,
    /// The decoded resource data.
    pub data: Data,
}

/// An answer entry.
#[derive(Debug, PartialEq)]
pub struct ResourceRecord {
    /// The domain name as dotted text.
    pub name: String,
    /// The record type.
    pub atype: Type,
    /// The record class.
    pub class: Class,
    /// Time to live, 32 bits, treated as unsigned.
    pub ttl: u32,
    /// The declared resource-data length.
    pub length: u16,
    /// The decoded resource data.
    pub data: Data,
}

impl View for ResourceRecord {
    type V = RrV;

    open spec fn view(&self) -> RrV {
        RrV {
            name: self.name@,
            atype: self.atype,
            class: self.class,
            ttl: self.ttl,
            length: self.length,
            data: self.data,
        }
    }
}

impl DeepView for ResourceRecord {
    type V = RrV;

    open spec fn deep_view(&self) -> RrV {
        self.view()
    }
}

impl Clone for ResourceRecord {
    fn clone(&self) -> (r: Self)
        ensures
            r@ == self@,
    {
        ResourceRecord {
            name: self.name.clone(),
            atype: self.atype,
            class: self.class,
            ttl: self.ttl,
            length: self.length,
            data: self.data,
        }
    }
}

impl Default for ResourceRecord {
    fn default() -> (r: Self)
        ensures
            r@ == (RrV {
                name: Seq::<char>::empty(),
                atype: Type::A,
                class: Class::IN,
                ttl: 0,
                length: 0,
                data: Data::Unmapped,
            }),
    {
        ResourceRecord {
            name: String::new(),
            atype: Type::A,
            class: Class::IN,
            ttl: 0,
            length: 0,
            data: Data::Unmapped,
        }
    }
}

/// The bytes of a record's resource data: the four octets of an address, and
/// nothing for data this design does not decode.
pub open spec fn spec_data_bytes(d: Data) -> Seq<u8> {
    match d {
        Data::Unmapped => Seq::empty(),
        Data::IP(ip) => seq![ip.a, ip.b, ip.c, ip.d],
    }
}

/// The wire bytes of a record: the uncompressed name, type, class, time to
/// live, declared data length, then the resource data.
pub open spec fn spec_rr_bytes(r: RrV) -> Seq<u8> {
    spec_name_bytes(encode_utf8(r.name)) + u16_be(type_code(r.atype)) + u16_be(class_code(r.class))
        + u32_be(r.ttl) + u16_be(r.length) + spec_data_bytes(r.data)
}

/// The result of decoding the record at `pos`: the record and the position
/// after it.  An address record must carry exactly four data octets; the
/// data of any other type is skipped by its declared length.
pub open spec fn spec_parse_rr(buf: Seq<u8>, pos: int) -> Result<(RrV, int), DnsError> {
    match spec_parse_name(buf, pos) {
        Ok((nb, p)) => if p + 10 > buf.len() {
            Err(DnsError::FormatError)
        } else {
            match spec_type_from(u16_of(buf[p], buf[p + 1])) {
                Ok(t) => match spec_class_from(u16_of(buf[p + 2], buf[p + 3])) {
                    Ok(c) => {
                        let ttl = u32_of(buf[p + 4], buf[p + 5], buf[p + 6], buf[p + 7]);
                        let len = u16_of(buf[p + 8], buf[p + 9]);
                        if p + 10 + len > buf.len() {
                            Err(DnsError::FormatError)
                        } else if t is A && len != 4 {
                            Err(DnsError::FormatError)
                        } else {
                            let data = if t is A {
                                Data::IP(
                                    Ipv4 {
                                        a: buf[p + 10],
                                        b: buf[p + 11],
                                        c: buf[p + 12],
                                        d: buf[p + 13],
                                    },
                                )
                            } else {
                                Data::Unmapped
                            };
                            Ok(
                                (
                                    RrV {
                                        name: decode_utf8(nb),
                                        atype: t,
                                        class: c,
                                        ttl,
                                        length: len,
                                        data,
                                    },
                                    p + 10 + len,
                                ),
                            )
                        }
                    },
                    Err(e) => Err(e),
                },
                Err(e) => Err(e),
            }
        },
        Err(e) => Err(e),
    }
}

impl RrV {
    /// A record is well formed when its name is well formed and its data
    /// agrees with its type and declared length: an address record carries
    /// four address octets, any other record skips its data entirely.
    pub open spec fn wf(self) -> bool {
        &&& wf_name_bytes(encode_utf8(self.name))
        &&& match self.atype {
            Type::A => self.length == 4 && self.data matches Data::IP(_),
            _ => self.length == 0 && self.data matches Data::Unmapped,
        }
    }
}

/// The fixed table of known domains and their addresses.
pub fn domains() -> (t: Vec<(String, Ipv4)>)
    ensures
        t@.len() == 2,
        t@[0].0@ == "codecrafters.io"@,
        t@[0].1 == (Ipv4 { a: 8, b: 8, c: 8, d: 8 }),
        t@[1].0@ == "another.codecrafters.io"@,
        t@[1].1 == (Ipv4 { a: 1, b: 1, c: 1, d: 1 }),
{
    let mut t: Vec<(String, Ipv4)> = Vec::new();
    t.push((String::from_str("codecrafters.io"), Ipv4::new(8, 8, 8, 8)));
    t.push((String::from_str("another.codecrafters.io"), Ipv4::new(1, 1, 1, 1)));
    t
}

/// The address the table maps a name to, or the fixed fallback address for a
/// name the table does not hold.
pub open spec fn spec_lookup(name: Seq<char>) -> Ipv4 {
    if name == "codecrafters.io"@ {
        Ipv4 { a: 8, b: 8, c: 8, d: 8 }
    } else if name == "another.codecrafters.io"@ {
        Ipv4 { a: 1, b: 1, c: 1, d: 1 }
    } else {
        Ipv4 { a: 8, b: 8, c: 8, d: 8 }
    }
}

/// The record that answers an address question for a name: class Internet, a
/// fixed time to live, and the looked-up or fallback address.
pub open spec fn spec_answer_record(name: Seq<char>) -> RrV {
    RrV {
        name,
        atype: Type::A,
        class: Class::IN,
        ttl: 60,
        length: 4,
        data: Data::IP(spec_lookup(name)),
    }
}

impl ResourceRecord {
    /// Synthesises the answer to a question: only the address type is
    /// supported, answered from the local table with a fallback address for
    /// unknown names; any other type is an unsupported operation.
    pub fn answer_by_type(qtype: Type, name: &str) -> (r: Result<Self, DnsError>)
        ensures
            match r {
                Ok(rr) => qtype is A && rr@ == spec_answer_record(name@),
                Err(e) => !(qtype is A) && e == DnsError::UnsupportedOperation,
            },
    {
        match qtype {
            Type::A => {
                let table = domains();
                let e0 = &table[0];
                let e1 = &table[1];
                let ip = if str_eq(name, e0.0.as_str()) {
                    e0.1
                } else if str_eq(name, e1.0.as_str()) {
                    e1.1
                } else {
                    Ipv4::new(8, 8, 8, 8)
                };
                Ok(
                    ResourceRecord {
                        name: String::from_str(name),
                        atype: qtype,
                        class: Class::IN,
                        ttl: 60,
                        length: 4,
                        data: Data::IP(ip),
                    },
                )
            },
            _ => Err(DnsError::UnsupportedOperation),
        }
    }

    /// Decodes the record at the cursor, leaving the cursor after it.
    pub fn from_bytes(bytes: &mut RawMessage) -> (r: Result<Self, DnsError>)
        ensures
            final(bytes).buffer == old(bytes).buffer,
            match r {
                Ok(rr) => spec_parse_rr(old(bytes).buffer@, old(bytes).current_pos as int) == Ok::<
                    (RrV, int),
                    DnsError,
                >((rr@, final(bytes).current_pos as int)) && final(bytes).current_pos <= old(
                    bytes,
                ).buffer@.len(),
                Err(e) => spec_parse_rr(old(bytes).buffer@, old(bytes).current_pos as int) == Err::<
                    (RrV, int),
                    DnsError,
                >(e),
            },
    {
        let name = match parse_labels(bytes) {
            Ok(n) => n,
            Err(e) => {
                return Err(e);
            },
        };
        proof {
            encode_utf8_decode_utf8(name@);
        }
        let fixed = match bytes.current_and_advance_range(10) {
            Ok(s) => s,
            Err(e) => {
                return Err(e);
            },
        };
        let atype = match Type::from_code(read_u16(fixed[0], fixed[1])) {
            Ok(t) => t,
            Err(e) => {
                return Err(e);
            },
        };
        let class = match Class::from_code(read_u16(fixed[2], fixed[3])) {
            Ok(c) => c,
            Err(e) => {
                return Err(e);
            },
        };
        let ttl = read_u32(fixed[4], fixed[5], fixed[6], fixed[7]);
        let length = read_u16(fixed[8], fixed[9]);
        let data_bytes = match bytes.current_and_advance_range(length as usize) {
            Ok(s) => s,
            Err(e) => {
                return Err(e);
            },
        };
        let data = match atype {
            Type::A => {
                if length != 4 {
                    return Err(DnsError::FormatError);
                }
                Data::IP(Ipv4::new(data_bytes[0], data_bytes[1], data_bytes[2], data_bytes[3]))
            },
            _ => Data::Unmapped,
        };
        Ok(Self { name, atype, class, ttl, length, data })
    }

    /// Encodes the record; for an address record the four address octets are
    /// the resource data.
    pub fn to_bytes(&self) -> (r: Vec<u8>)
        ensures
            r@ == spec_rr_bytes(self@),
    {
        let mut bytes: Vec<u8> = Vec::new();
        push_name(&mut bytes, self.name.as_str());
        crate::wire::push_u16(&mut bytes, self.atype.code());
        crate::wire::push_u16(&mut bytes, self.class.code());
        crate::wire::push_u32(&mut bytes, self.ttl);
        crate::wire::push_u16(&mut bytes, self.length);
        match self.data {
            Data::Unmapped => {},
            Data::IP(ip) => {
                bytes.push(ip.a);
                bytes.push(ip.b);
                bytes.push(ip.c);
                bytes.push(ip.d);
            },
        }
        assert(bytes@ =~= spec_rr_bytes(self@));
        bytes
    }
}

/// Decoding the encoding of a well-formed record, wherever it is embedded in
/// a message, yields the record back and ends right after it.
pub proof fn lemma_rr_parses(buf: Seq<u8>, pos: int, r: RrV)
    requires
        r.wf(),
        0 <= pos,
        pos + spec_rr_bytes(r).len() <= buf.len(),
        buf.subrange(pos, pos + spec_rr_bytes(r).len() as int) == spec_rr_bytes(r),
    ensures
        spec_parse_rr(buf, pos) == Ok::<(RrV, int), DnsError>((r, pos + spec_rr_bytes(r).len())),
{
    let nb = encode_utf8(r.name);
    let ne = spec_name_bytes(nb);
    let enc = spec_rr_bytes(r);
    let tc = type_code(r.atype);
    let cc = class_code(r.class);
    assert forall|k: int| pos <= k < pos + enc.len() implies buf[k] == enc[k - pos] by {
        assert(buf.subrange(pos, pos + enc.len() as int)[k - pos] == enc[k - pos]);
    }
    assert(buf.subrange(pos, pos + ne.len() as int) =~= ne);
    lemma_encoded_name_parses(buf, pos, nb, 0);
    encode_utf8_valid_utf8(r.name);
    encode_utf8_decode_utf8(r.name);
    let p = pos + ne.len();
    assert(buf[p] == u16_be(tc)[0] && buf[p + 1] == u16_be(tc)[1]);
    assert(buf[p + 2] == u16_be(cc)[0] && buf[p + 3] == u16_be(cc)[1]);
    assert(buf[p + 4] == u32_be(r.ttl)[0] && buf[p + 5] == u32_be(r.ttl)[1] && buf[p + 6] == u32_be(
        r.ttl,
    )[2] && buf[p + 7] == u32_be(r.ttl)[3]);
    assert(buf[p + 8] == u16_be(r.length)[0] && buf[p + 9] == u16_be(r.length)[1]);
    lemma_u16_round(tc);
    lemma_u16_round(cc);
    lemma_u32_round(r.ttl);
    lemma_u16_round(r.length);
    lemma_type_code_round(r.atype);
    lemma_class_code_round(r.class);
    match r.data {
        Data::Unmapped => {},
        Data::IP(ip) => {
            assert(buf[p + 10] == ip.a && buf[p + 11] == ip.b && buf[p + 12] == ip.c && buf[p + 13]
                == ip.d);
        },
    }
}

} // verus!
