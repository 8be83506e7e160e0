//! The fixed 12-octet message header.

use vstd::prelude::*;

use crate::error::DnsError;
use crate::wire::{lemma_u16_round, read_u16, u16_be, u16_of};

verus! {

/// Whether a message is a query or a response (the QR bit).
#[derive(Debug, Clone, Copy, PartialEq, Eq, Structural)]
pub enum MessageType {
    Query,
    Response,
}

/// The wire value of the QR bit.
pub open spec fn message_type_code(t: MessageType) -> u8 {
    match t {
        MessageType::Query => 0,
        MessageType::Response => 1,
    }
}

/// The result of reading a QR bit value.
pub open spec fn spec_message_type_from(v: u8) -> Result<MessageType, DnsError> {
    if v == 0 {
        Ok(MessageType::Query)
    } else if v == 1 {
        Ok(MessageType::Response)
    } else {
        Err(DnsError::FormatError)
    }
}

impl MessageType {
    /// The wire value of the QR bit.
    pub fn code(&self) -> (c: u8)
        ensures
            c == message_type_code(*self),
    {
        match *self {
            MessageType::Query => 0,
            MessageType::Response => 1,
        }
    }

    /// Validating constructor from the wire value.
    pub fn from_code(v: u8) -> (r: Result<Self, DnsError>)
        ensures
            r == spec_message_type_from(v),
    {
        match v {
            0 => Ok(MessageType::Query),
            1 => Ok(MessageType::Response),
            _ => Err(DnsError::FormatError),
        }
    }
}

/// The 4-bit operation code.  Value 3 is reserved by the protocol for future
/// use but must decode without error into its own variant.
#[derive(Debug, Clone, Copy, PartialEq, Eq, Structural)]
pub enum OpCode {
    Query,
    IQuery,
    Status,
    Reserved,
}

/// The wire value of the operation code.
pub open spec fn op_code_value(o: OpCode) -> u8 {
    match o {
        OpCode::Query => 0,
        OpCode::IQuery => 1,
        OpCode::Status => 2,
        OpCode::Reserved => 3,
    }
}

/// The result of reading an operation-code value.
pub open spec fn spec_op_code_from(v: u8) -> Result<OpCode, DnsError> {
    if v == 0 {
        Ok(OpCode::Query)
    } else if v == 1 {
        Ok(OpCode::IQuery)
    } else if v == 2 {
        Ok(OpCode::Status)
    } else if v == 3 {
        Ok(OpCode::Reserved)
    } else {
        Err(DnsError::FormatError)
    }
}

impl OpCode {
    /// The wire value of the operation code.
    pub fn code(&self) -> (c: u8)
        ensures
            c == op_code_value(*self),
    {
        match *self {
            OpCode::Query => 0,
            OpCode::IQuery => 1,
            OpCode::Status => 2,
            OpCode::Reserved => 3,
        }
    }

    /// Validating constructor from the wire value.
    pub fn from_code(v: u8) -> (r: Result<Self, DnsError>)
        ensures
            r == spec_op_code_from(v),
    {
        match v {
            0 => Ok(OpCode::Query),
            1 => Ok(OpCode::IQuery),
            2 => Ok(OpCode::Status),
            3 => Ok(OpCode::Reserved),
            _ => Err(DnsError::FormatError),
        }
    }
}

/// The 4-bit response code.
#[derive(Debug, Clone, Copy, PartialEq, Eq, Structural)]
pub enum ResponseCode {
    NoError,
    FormatError,
    ServerFailure,
    NameError,
    NotImplemented,
    Refused,
}

/// The wire value of the response code.
pub open spec fn response_code_value(c: ResponseCode) -> u8 {
    match c {
        ResponseCode::NoError => 0,
        ResponseCode::FormatError => 1,
        ResponseCode::ServerFailure => 2,
        ResponseCode::NameError => 3,
        ResponseCode::NotImplemented => 4,
        ResponseCode::Refused => 5,
    }
}

/// The result of reading a response-code value.
pub open spec fn spec_response_code_from(v: u8) -> Result<ResponseCode, DnsError> {
    if v == 0 {
        Ok(ResponseCode::NoError)
    } else if v == 1 {
        Ok(ResponseCode::FormatError)
    } else if v == 2 {
        Ok(ResponseCode::ServerFailure)
    } else if v == 3 {
        Ok(ResponseCode::NameError)
    } else if v == 4 {
        Ok(ResponseCode::NotImplemented)
    } else if v == 5 {
        Ok(ResponseCode::Refused)
    } else {
        Err(DnsError::FormatError)
    }
}

impl ResponseCode {
    /// The wire value of the response code.
    pub fn code(&self) -> (c: u8)
        ensures
            c == response_code_value(*self),
    {
        match *self {
            ResponseCode::NoError => 0,
            ResponseCode::FormatError => 1,
            ResponseCode::ServerFailure => 2,
            ResponseCode::NameError => 3,
            ResponseCode::NotImplemented => 4,
            ResponseCode::Refused => 5,
        }
    }

    /// Validating constructor from the wire value.
    pub fn from_code(v: u8) -> (r: Result<Self, DnsError>)
        ensures
            r == spec_response_code_from(v),
    {
        match v {
            0 => Ok(ResponseCode::NoError),
            1 => Ok(ResponseCode::FormatError),
            2 => Ok(ResponseCode::ServerFailure),
            3 => Ok(ResponseCode::NameError),
            4 => Ok(ResponseCode::NotImplemented),
            5 => Ok(ResponseCode::Refused),
            _ => Err(DnsError::FormatError),
        }
    }
}

/// The fixed message header.
#[derive(Debug, Clone, Copy, PartialEq, Eq, Structural)]
pub struct Header {
    /// Transaction identifier, 16 bits big-endian.
    pub id: u16,
    /// QR: 1 bit.
    pub message_type: MessageType,
    /// OPCODE: 4 bits.
    pub op_code: OpCode,
    /// AA, the responding server owns the domain: 1 bit.
    pub auth_answer: bool,
    /// TC: 1 bit.
    pub truncation: bool,
    /// RD: 1 bit.
    pub recursion_desired: bool,
    /// RA: 1 bit.
    pub recursion_available: bool,
    /// Reserved: 3 bits.
    pub z: u8,
    /// RCODE: 4 bits.
    pub response_code: ResponseCode,
    /// QDCOUNT: 16 bits big-endian.
    pub qd_count: u16,
    /// ANCOUNT: 16 bits big-endian.
    pub an_count: u16,
    /// NSCOUNT: 16 bits big-endian.
    pub ns_count: u16,
    /// ARCOUNT: 16 bits big-endian.
    pub ar_count: u16,
}

/// The wire value of a flag bit.
pub open spec fn bool_bit(b: bool) -> u8 {
    if b {
        1
    } else {
        0
    }
}

/// The packed flag byte holding QR, OPCODE, AA, TC and RD.
pub open spec fn spec_flag_byte(h: Header) -> u8 {
    (message_type_code(h.message_type) << 7) | (op_code_value(h.op_code) << 3) | (bool_bit(
        h.auth_answer,
    ) << 2) | (bool_bit(h.truncation) << 1) | bool_bit(h.recursion_desired)
}

/// The packed byte holding RA, the reserved bits and RCODE.  The reserved
/// field is masked to its three bits when written.
pub open spec fn spec_rcode_byte(h: Header) -> u8 {
    (bool_bit(h.recursion_available) << 7) | ((h.z & 0x07) << 4) | response_code_value(
        h.response_code,
    )
}

/// The 12 octets of a header on the wire.
pub open spec fn spec_header_bytes(h: Header) -> Seq<u8> {
    u16_be(h.id) + seq![spec_flag_byte(h), spec_rcode_byte(h)] + u16_be(h.qd_count) + u16_be(
        h.an_count,
    ) + u16_be(h.ns_count) + u16_be(h.ar_count)
}

/// The result of decoding 12 header octets.
pub open spec fn spec_parse_header(b: Seq<u8>) -> Result<Header, DnsError>
    recommends
        b.len() == 12,
{
    match spec_message_type_from((b[2] & 0x80) >> 7) {
        Ok(mt) => match spec_op_code_from((b[2] & 0x78) >> 3) {
            Ok(op) => match spec_response_code_from(b[3] & 0x0F) {
                Ok(rc) => Ok(
                    Header {
                        id: u16_of(b[0], b[1]),
                        message_type: mt,
                        op_code: op,
                        auth_answer: (b[2] & 0x04) >> 2 != 0,
                        truncation: (b[2] & 0x02) >> 1 != 0,
                        recursion_desired: b[2] & 0x01 != 0,
                        recursion_available: (b[3] & 0x80) >> 7 != 0,
                        z: (b[3] & 0x70) >> 4,
                        response_code: rc,
                        qd_count: u16_of(b[4], b[5]),
                        an_count: u16_of(b[6], b[7]),
                        ns_count: u16_of(b[8], b[9]),
                        ar_count: u16_of(b[10], b[11]),
                    },
                ),
                Err(e) => Err(e),
            },
            Err(e) => Err(e),
        },
        Err(e) => Err(e),
    }
}

/// The header of the reply to a request carrying this header: the type flips
/// to response, the answer count is assumed to become the question count, and
/// the response code reports whether the operation is implemented.
pub open spec fn spec_header_reply(h: Header) -> Header {
    Header {
        message_type: MessageType::Response,
        an_count: h.qd_count,
        response_code: match h.op_code {
            OpCode::Query => ResponseCode::NoError,
            _ => ResponseCode::NotImplemented,
        },
        ..h
    }
}

/// The all-zero query header.
pub open spec fn spec_header_default() -> Header {
    Header {
        id: 0,
        message_type: MessageType::Query,
        op_code: OpCode::Query,
        auth_answer: false,
        truncation: false,
        recursion_desired: false,
        recursion_available: false,
        z: 0,
        response_code: ResponseCode::NoError,
        qd_count: 0,
        an_count: 0,
        ns_count: 0,
        ar_count: 0,
    }
}

impl Default for Header {
    fn default() -> (r: Self)
        ensures
            r == spec_header_default(),
    {
        Header {
            id: 0,
            message_type: MessageType::Query,
            op_code: OpCode::Query,
            auth_answer: false,
            truncation: false,
            recursion_desired: false,
            recursion_available: false,
            z: 0,
            response_code: ResponseCode::NoError,
            qd_count: 0,
            an_count: 0,
            ns_count: 0,
            ar_count: 0,
        }
    }
}

impl Header {
    /// A header is well formed when its reserved field fits its three bits.
    pub open spec fn wf(self) -> bool {
        self.z < 8
    }

    /// Derives the header of the reply to a request carrying this header.
    pub fn build_reply(&self) -> (r: Self)
        ensures
            r == spec_header_reply(*self),
    {
        let mut reply = *self;
        reply.message_type = MessageType::Response;
        reply.an_count = self.qd_count;
        reply.response_code = match self.op_code {
            OpCode::Query => ResponseCode::NoError,
            _ => ResponseCode::NotImplemented,
        };
        reply
    }

    /// Decodes the 12 header octets.
    pub fn from_bytes(buf: [u8; 12]) -> (r: Result<Self, DnsError>)
        ensures
            r == spec_parse_header(buf@),
    {
        let message_type = match MessageType::from_code((buf[2] & 0x80) >> 7) {
            Ok(v) => v,
            Err(e) => {
                return Err(e);
            },
        };
        let op_code = match OpCode::from_code((buf[2] & 0x78) >> 3) {
            Ok(v) => v,
            Err(e) => {
                return Err(e);
            },
        };
        let response_code = match ResponseCode::from_code(buf[3] & 0x0F) {
            Ok(v) => v,
            Err(e) => {
                return Err(e);
            },
        };
        Ok(
            Header {
                id: read_u16(buf[0], buf[1]),
                message_type,
                op_code,
                auth_answer: (buf[2] & 0x04) >> 2 != 0,
                truncation: (buf[2] & 0x02) >> 1 != 0,
                recursion_desired: buf[2] & 0x01 != 0,
                recursion_available: (buf[3] & 0x80) >> 7 != 0,
                z: (buf[3] & 0x70) >> 4,
                response_code,
                qd_count: read_u16(buf[4], buf[5]),
                an_count: read_u16(buf[6], buf[7]),
                ns_count: read_u16(buf[8], buf[9]),
                ar_count: read_u16(buf[10], buf[11]),
            },
        )
    }

    /// Encodes the header as its 12 octets; the exact inverse bit-packing of
    /// decoding.
    pub fn to_bytes(self) -> (r: [u8; 12])
        ensures
            r@ == spec_header_bytes(self),
    {
        let bit_qr = self.message_type.code();
        let bits_op = self.op_code.code();
        let bit_aa: u8 = if self.auth_answer {
            1
        } else {
            0
        };
        let bit_tc: u8 = if self.truncation {
            1
        } else {
            0
        };
        let bit_rd: u8 = if self.recursion_desired {
            1
        } else {
            0
        };
        let flag_byte: u8 = (bit_qr << 7) | (bits_op << 3) | (bit_aa << 2) | (bit_tc << 1) | bit_rd;
        let bit_ra: u8 = if self.recursion_available {
            1
        } else {
            0
        };
        let rcode_byte: u8 = (bit_ra << 7) | ((self.z & 0x07) << 4) | self.response_code.code();
        let r = [
            (self.id >> 8) as u8,
            self.id as u8,
            flag_byte,
            rcode_byte,
            (self.qd_count >> 8) as u8,
            self.qd_count as u8,
            (self.an_count >> 8) as u8,
            self.an_count as u8,
            (self.ns_count >> 8) as u8,
            self.ns_count as u8,
            (self.ar_count >> 8) as u8,
            self.ar_count as u8,
        ];
        assert(r@ =~= spec_header_bytes(self));
        r
    }
}

/// Appends the 12 octets of a header.
pub fn push_header(out: &mut Vec<u8>, h: Header)
    ensures
        final(out)@ == old(out)@ + spec_header_bytes(h),
{
    let bytes = h.to_bytes();
    let mut k: usize = 0;
    assert(out@ =~= old(out)@ + bytes@.subrange(0, 0));
    while k < 12
        invariant
            k <= 12,
            bytes@ == spec_header_bytes(h),
            bytes@.len() == 12,
            out@ == old(out)@ + bytes@.subrange(0, k as int),
        decreases 12 - k,
    {
        out.push(bytes[k]);
        assert(out@ =~= old(out)@ + bytes@.subrange(0, k + 1));
        k = k + 1;
    }
    assert(bytes@.subrange(0, 12) =~= bytes@);
}

/// Reading each flag back out of the packed flag byte yields the flag.
proof fn lemma_flag_byte_round(h: Header)
    ensures
        (spec_flag_byte(h) & 0x80) >> 7 == message_type_code(h.message_type),
        (spec_flag_byte(h) & 0x78) >> 3 == op_code_value(h.op_code),
        ((spec_flag_byte(h) & 0x04) >> 2 != 0) == h.auth_answer,
        ((spec_flag_byte(h) & 0x02) >> 1 != 0) == h.truncation,
        (spec_flag_byte(h) & 0x01 != 0) == h.recursion_desired,
{
    let mt = message_type_code(h.message_type);
    let op = op_code_value(h.op_code);
    let aa = bool_bit(h.auth_answer);
    let tc = bool_bit(h.truncation);
    let rd = bool_bit(h.recursion_desired);
    let b = (mt << 7) | (op << 3) | (aa << 2) | (tc << 1) | rd;
    assert((b & 0x80) >> 7 == mt && (b & 0x78) >> 3 == op && (b & 0x04) >> 2 == aa && (b & 0x02)
        >> 1 == tc && (b & 0x01) == rd) by (bit_vector)
        requires
            mt <= 1 && op <= 15 && aa <= 1 && tc <= 1 && rd <= 1 && b == (mt << 7) | (op << 3) | (
            aa << 2) | (tc << 1) | rd,
    ;
}

/// Reading each field back out of the packed response-code byte yields the
/// field, provided the reserved field fits its three bits.
proof fn lemma_rcode_byte_round(h: Header)
    requires
        h.z < 8,
    ensures
        ((spec_rcode_byte(h) & 0x80) >> 7 != 0) == h.recursion_available,
        (spec_rcode_byte(h) & 0x70) >> 4 == h.z,
        spec_rcode_byte(h) & 0x0F == response_code_value(h.response_code),
{
    let ra = bool_bit(h.recursion_available);
    let z = h.z;
    let rc = response_code_value(h.response_code);
    let b = (ra << 7) | ((z & 0x07) << 4) | rc;
    assert((b & 0x80) >> 7 == ra && (b & 0x70) >> 4 == z && (b & 0x0F) == rc) by (bit_vector)
        requires
            ra <= 1 && z < 8 && rc <= 15 && b == (ra << 7) | ((z & 0x07) << 4) | rc,
    ;
}

/// Decoding the encoding of a well-formed header yields the header back.
pub proof fn lemma_header_round_trip(h: Header)
    requires
        h.wf(),
    ensures
        spec_parse_header(spec_header_bytes(h)) == Ok::<Header, DnsError>(h),
{
    let b = spec_header_bytes(h);
    assert(b =~= seq![
        (h.id >> 8) as u8,
        h.id as u8,
        spec_flag_byte(h),
        spec_rcode_byte(h),
        (h.qd_count >> 8) as u8,
        h.qd_count as u8,
        (h.an_count >> 8) as u8,
        h.an_count as u8,
        (h.ns_count >> 8) as u8,
        h.ns_count as u8,
        (h.ar_count >> 8) as u8,
        h.ar_count as u8,
    ]);
    lemma_flag_byte_round(h);
    lemma_rcode_byte_round(h);
    lemma_u16_round(h.id);
    lemma_u16_round(h.qd_count);
    lemma_u16_round(h.an_count);
    lemma_u16_round(h.ns_count);
    lemma_u16_round(h.ar_count);
}

} // verus!
