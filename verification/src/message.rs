//! The shared parse cursor, the record type and class tables, and whole
//! messages.

use vstd::prelude::*;

use crate::answer::{spec_parse_rr, spec_rr_bytes, ResourceRecord, RrV};
use crate::error::DnsError;
use crate::header::{spec_header_bytes, spec_header_reply, spec_parse_header, Header};
use crate::name::{
    is_pointer_byte, parse_name_raw, pointer_offset, spec_parse_name, string_from_utf8,
};
use crate::question::{lemma_question_parses, spec_parse_question, spec_question_bytes, Question, QuestionV};

verus! {

use vstd::string::StringSliceAdditionalSpecFns;

/// A byte buffer together with the position decoding has reached.  Name
/// compression makes decoders look back anywhere in the buffer, so the whole
/// message rides along with the cursor.
pub struct RawMessage<'a> {
    /// The whole message.
    pub buffer: &'a [u8],
    /// Where the next field starts.
    pub current_pos: usize,
}

impl<'a> RawMessage<'a> {
    /// A cursor at the start of the buffer.
    pub fn new(buffer: &'a [u8]) -> (r: Self)
        ensures
            r.buffer == buffer,
            r.current_pos == 0,
    {
        Self { buffer, current_pos: 0 }
    }

    /// The byte at an absolute position, without moving the cursor.
    pub fn get(&self, n: usize) -> (r: Result<u8, DnsError>)
        ensures
            r == if n < self.buffer@.len() {
                Ok::<u8, DnsError>(self.buffer@[n as int])
            } else {
                Err::<u8, DnsError>(DnsError::FormatError)
            },
    {
        if n < self.buffer.len() {
            Ok(self.buffer[n])
        } else {
            Err(DnsError::FormatError)
        }
    }

    /// The bytes of an absolute range, without moving the cursor.
    pub fn get_range(&self, range: core::ops::Range<usize>) -> (r: Result<&'a [u8], DnsError>)
        ensures
            match r {
                Ok(s) => range.start <= range.end <= self.buffer@.len() && s@
                    == self.buffer@.subrange(range.start as int, range.end as int),
                Err(e) => (range.start > range.end || range.end > self.buffer@.len()) && e
                    == DnsError::FormatError,
            },
    {
        if range.start <= range.end && range.end <= self.buffer.len() {
            Ok(&self.buffer[range.start..range.end])
        } else {
            Err(DnsError::FormatError)
        }
    }

    /// The next `n` bytes, moving the cursor past them.
    pub fn current_and_advance_range(&mut self, n: usize) -> (r: Result<&'a [u8], DnsError>)
        ensures
            final(self).buffer == old(self).buffer,
            match r {
                Ok(s) => old(self).current_pos + n <= old(self).buffer@.len() && s@ == old(
                    self,
                ).buffer@.subrange(
                    old(self).current_pos as int,
                    old(self).current_pos + n as int,
                ) && final(self).current_pos == old(self).current_pos + n,
                Err(e) => old(self).current_pos + n > old(self).buffer@.len() && e
                    == DnsError::FormatError && *final(self) == *old(self),
            },
    {
        if self.current_pos > self.buffer.len() || n > self.buffer.len() - self.current_pos {
            return Err(DnsError::FormatError);
        }
        let next = &self.buffer[self.current_pos..self.current_pos + n];
        self.current_pos = self.current_pos + n;
        Ok(next)
    }
}

/// The class of a question or record.
#[derive(Debug, Clone, Copy, PartialEq, Eq, Structural)]
pub enum Class {
    /// The Internet.
    IN,
    /// CSNET (obsolete).
    CS,
    /// The Chaos class.
    CH,
    /// Hesiod.
    HS,
}

/// The wire value of a class.
pub open spec fn class_code(c: Class) -> u16 {
    match c {
        Class::IN => 1,
        Class::CS => 2,
        Class::CH => 3,
        Class::HS => 4,
    }
}

/// The result of reading a class value.
pub open spec fn spec_class_from(v: u16) -> Result<Class, DnsError> {
    if v == 1 {
        Ok(Class::IN)
    } else if v == 2 {
        Ok(Class::CS)
    } else if v == 3 {
        Ok(Class::CH)
    } else if v == 4 {
        Ok(Class::HS)
    } else {
        Err(DnsError::FormatError)
    }
}

impl Class {
    /// The wire value of the class.
    pub fn code(&self) -> (c: u16)
        ensures
            c == class_code(*self),
    {
        match *self {
            Class::IN => 1,
            Class::CS => 2,
            Class::CH => 3,
            Class::HS => 4,
        }
    }

    /// Validating constructor from the wire value.
    pub fn from_code(v: u16) -> (r: Result<Self, DnsError>)
        ensures
            r == spec_class_from(v),
    {
        match v {
            1 => Ok(Class::IN),
            2 => Ok(Class::CS),
            3 => Ok(Class::CH),
            4 => Ok(Class::HS),
            _ => Err(DnsError::FormatError),
        }
    }
}

/// The type of a question or record.  Only the address type is interpreted;
/// the others are recognised so that their records can be skipped.
#[derive(Debug, Clone, Copy, PartialEq, Eq, Structural)]
pub enum Type {
    /// A host address.
    A,
    /// An authoritative name server.
    NS,
    /// A mail destination (obsolete).
    MD,
    /// A mail forwarder (obsolete).
    MF,
    /// The canonical name for an alias.
    CName,
    /// The start of a zone of authority.
    Soa,
    /// A mailbox domain name.
    MB,
    /// A mail group member.
    MG,
    /// A mail rename domain name.
    MR,
    /// The null record.
    Null,
    /// A well-known service description.
    Wks,
    /// A domain name pointer.
    Ptr,
    /// Host information.
    HInfo,
    /// Mailbox or mail list information.
    MInfo,
    /// A mail exchange.
    MX,
    /// Text strings.
    Txt,
}

/// The wire value of a type.
pub open spec fn type_code(t: Type) -> u16 {
    match t {
        Type::A => 1,
        Type::NS => 2,
        Type::MD => 3,
        Type::MF => 4,
        Type::CName => 5,
        Type::Soa => 6,
        Type::MB => 7,
        Type::MG => 8,
        Type::MR => 9,
        Type::Null => 10,
        Type::Wks => 11,
        Type::Ptr => 12,
        Type::HInfo => 13,
        Type::MInfo => 14,
        Type::MX => 15,
        Type::Txt => 16,
    }
}

/// The result of reading a type value.
pub open spec fn spec_type_from(v: u16) -> Result<Type, DnsError> {
    if v == 1 {
        Ok(Type::A)
    } else if v == 2 {
        Ok(Type::NS)
    } else if v == 3 {
        Ok(Type::MD)
    } else if v == 4 {
        Ok(Type::MF)
    } else if v == 5 {
        Ok(Type::CName)
    } else if v == 6 {
        Ok(Type::Soa)
    } else if v == 7 {
        Ok(Type::MB)
    } else if v == 8 {
        Ok(Type::MG)
    } else if v == 9 {
        Ok(Type::MR)
    } else if v == 10 {
        Ok(Type::Null)
    } else if v == 11 {
        Ok(Type::Wks)
    } else if v == 12 {
        Ok(Type::Ptr)
    } else if v == 13 {
        Ok(Type::HInfo)
    } else if v == 14 {
        Ok(Type::MInfo)
    } else if v == 15 {
        Ok(Type::MX)
    } else if v == 16 {
        Ok(Type::Txt)
    } else {
        Err(DnsError::FormatError)
    }
}

impl Type {
    /// The wire value of the type.
    pub fn code(&self) -> (c: u16)
        ensures
            c == type_code(*self),
    {
        match *self {
            Type::A => 1,
            Type::NS => 2,
            Type::MD => 3,
            Type::MF => 4,
            Type::CName => 5,
            Type::Soa => 6,
            Type::MB => 7,
            Type::MG => 8,
            Type::MR => 9,
            Type::Null => 10,
            Type::Wks => 11,
            Type::Ptr => 12,
            Type::HInfo => 13,
            Type::MInfo => 14,
            Type::MX => 15,
            Type::Txt => 16,
        }
    }

    /// Validating constructor from the wire value.
    pub fn from_code(v: u16) -> (r: Result<Self, DnsError>)
        ensures
            r == spec_type_from(v),
    {
        match v {
            1 => Ok(Type::A),
            2 => Ok(Type::NS),
            3 => Ok(Type::MD),
            4 => Ok(Type::MF),
            5 => Ok(Type::CName),
            6 => Ok(Type::Soa),
            7 => Ok(Type::MB),
            8 => Ok(Type::MG),
            9 => Ok(Type::MR),
            10 => Ok(Type::Null),
            11 => Ok(Type::Wks),
            12 => Ok(Type::Ptr),
            13 => Ok(Type::HInfo),
            14 => Ok(Type::MInfo),
            15 => Ok(Type::MX),
            16 => Ok(Type::Txt),
            _ => Err(DnsError::FormatError),
        }
    }
}

/// Reads a compression pointer out of a length byte and the byte after it:
/// the offset to jump to when the top two bits of the length byte are both
/// set, and nothing otherwise.
pub fn pointer(byte: u8, next: u8) -> (r: Option<u16>)
    ensures
        r == if is_pointer_byte(byte) {
            Some(pointer_offset(byte, next))
        } else {
            None::<u16>
        },
{
    if byte & 0xC0 != 0xC0 {
        return None;
    }
    Some((((byte & 0x3F) as u16) << 8) | (next as u16))
}

/// Decodes the name whose label run starts at the cursor, and leaves the
/// cursor where the fields after the name continue: past the terminating
/// zero, or past the first compression pointer if one was followed.
pub fn parse_labels(bytes: &mut RawMessage) -> (r: Result<String, DnsError>)
    ensures
        final(bytes).buffer == old(bytes).buffer,
        match r {
            Ok(name) => spec_parse_name(old(bytes).buffer@, old(bytes).current_pos as int)
                == Ok::<(Seq<u8>, int), DnsError>(
                (vstd::utf8::encode_utf8(name@), final(bytes).current_pos as int),
            ) && final(bytes).current_pos <= old(bytes).buffer@.len(),
            Err(e) => spec_parse_name(old(bytes).buffer@, old(bytes).current_pos as int) == Err::<
                (Seq<u8>, int),
                DnsError,
            >(e) && *final(bytes) == *old(bytes),
        },
{
    match parse_name_raw(bytes.buffer, bytes.current_pos) {
        Ok((nb, end)) => {
            let ghost nbs = nb@;
            match string_from_utf8(nb) {
                Some(s) => {
                    proof {
                        vstd::utf8::decode_utf8_encode_utf8(nbs);
                    }
                    bytes.current_pos = end;
                    Ok(s)
                },
                None => Err(DnsError::FormatError),
            }
        },
        Err(e) => Err(e),
    }
}

/// The mathematical value of a whole message.  A section that the header
/// counts as empty is absent rather than an empty list.
pub ghost struct MessageV {
    /// The fixed header.
    pub header: Header,
    /// The question section, absent when the question count is zero.
    pub question: Option<Seq<QuestionV>>,
    /// The answer section, absent when the answer count is zero.
    pub answer: Option<Seq<RrV>>,
}

/// The questions of a message, with an absent section read as no questions.
pub open spec fn opt_questions(q: Option<Seq<QuestionV>>) -> Seq<QuestionV> {
    match q {
        Some(s) => s,
        None => Seq::empty(),
    }
}

/// The answers of a message, with an absent section read as no answers.
pub open spec fn opt_answers(a: Option<Seq<RrV>>) -> Seq<RrV> {
    match a {
        Some(s) => s,
        None => Seq::empty(),
    }
}

/// The wire bytes of a run of questions, in order.
pub open spec fn spec_questions_bytes(qs: Seq<QuestionV>) -> Seq<u8>
    decreases qs.len(),
{
    if qs.len() == 0 {
        Seq::empty()
    } else {
        spec_question_bytes(qs[0]) + spec_questions_bytes(qs.drop_first())
    }
}

/// The wire bytes of a run of records, in order.
pub open spec fn spec_rrs_bytes(rs: Seq<RrV>) -> Seq<u8>
    decreases rs.len(),
{
    if rs.len() == 0 {
        Seq::empty()
    } else {
        spec_rr_bytes(rs[0]) + spec_rrs_bytes(rs.drop_first())
    }
}

/// The wire bytes of a whole message: header, questions, answers.  No
/// authority or additional section is ever emitted.
pub open spec fn spec_message_bytes(m: MessageV) -> Seq<u8> {
    spec_header_bytes(m.header) + spec_questions_bytes(opt_questions(m.question)) + spec_rrs_bytes(
        opt_answers(m.answer),
    )
}

/// The result of decoding `n` questions one after another from `pos`.
pub open spec fn spec_parse_questions(buf: Seq<u8>, pos: int, n: int) -> Result<
    (Seq<QuestionV>, int),
    DnsError,
>
    decreases n,
{
    if n <= 0 {
        Ok((Seq::empty(), pos))
    } else {
        match spec_parse_question(buf, pos) {
            Ok((q, p)) => match spec_parse_questions(buf, p, n - 1) {
                Ok((rest, end)) => Ok((seq![q] + rest, end)),
                Err(e) => Err(e),
            },
            Err(e) => Err(e),
        }
    }
}

/// The result of decoding `n` records one after another from `pos`.
pub open spec fn spec_parse_rrs(buf: Seq<u8>, pos: int, n: int) -> Result<
    (Seq<RrV>, int),
    DnsError,
>
    decreases n,
{
    if n <= 0 {
        Ok((Seq::empty(), pos))
    } else {
        match spec_parse_rr(buf, pos) {
            Ok((r, p)) => match spec_parse_rrs(buf, p, n - 1) {
                Ok((rest, end)) => Ok((seq![r] + rest, end)),
                Err(e) => Err(e),
            },
            Err(e) => Err(e),
        }
    }
}

/// The result of decoding a whole message: at least 12 octets, the header,
/// then exactly as many questions and answers as the header counts, all
/// sharing one cursor so that compression pointers may reach back anywhere.
/// Authority and additional sections are never parsed.
pub open spec fn spec_parse_message(buf: Seq<u8>) -> Result<MessageV, DnsError> {
    if buf.len() < 12 {
        Err(DnsError::FormatError)
    } else {
        match spec_parse_header(buf.subrange(0, 12)) {
            Ok(h) => match spec_parse_questions(buf, 12, h.qd_count as int) {
                Ok((qs, p)) => match spec_parse_rrs(buf, p, h.an_count as int) {
                    Ok((rs, _end)) => Ok(
                        MessageV {
                            header: h,
                            question: if h.qd_count == 0 {
                                None
                            } else {
                                Some(qs)
                            },
                            answer: if h.an_count == 0 {
                                None
                            } else {
                                Some(rs)
                            },
                        },
                    ),
                    Err(e) => Err(e),
                },
                Err(e) => Err(e),
            },
            Err(e) => Err(e),
        }
    }
}

impl MessageV {
    /// The header's counts agree with the sections: an absent section counts
    /// zero, a present one is nonempty and counts its length.
    pub open spec fn counts_ok(self) -> bool {
        &&& match self.question {
            Some(qs) => qs.len() == self.header.qd_count && qs.len() > 0,
            None => self.header.qd_count == 0,
        }
        &&& match self.answer {
            Some(rs) => rs.len() == self.header.an_count && rs.len() > 0,
            None => self.header.an_count == 0,
        }
    }

    /// A message is well formed when its counts agree with its sections and
    /// every part of it encodes to bytes that decode back to it.
    pub open spec fn wf(self) -> bool {
        &&& self.counts_ok()
        &&& self.header.wf()
        &&& forall|i: int|
            0 <= i < opt_questions(self.question).len() ==> opt_questions(self.question)[i].wf()
        &&& forall|i: int|
            0 <= i < opt_answers(self.answer).len() ==> opt_answers(self.answer)[i].wf()
    }
}

/// The reply to a message: the reply header, the original questions, and one
/// synthesized answer per question, so that the answer count reflects the
/// number of answers actually added.  A question of any type but the address
/// type makes the whole reply an unsupported operation.
pub open spec fn spec_build_reply(m: MessageV) -> Result<MessageV, DnsError> {
    let qs = opt_questions(m.question);
    if forall|i: int| 0 <= i < qs.len() ==> qs[i].qtype is A {
        Ok(
            MessageV {
                header: spec_header_reply(m.header),
                question: m.question,
                answer: if qs.len() == 0 {
                    None
                } else {
                    Some(Seq::new(qs.len(), |i: int| crate::answer::spec_answer_record(qs[i].name)))
                },
            },
        )
    } else {
        Err(DnsError::UnsupportedOperation)
    }
}

/// A whole message: header, questions, answers.
#[derive(Debug, PartialEq)]
pub struct DNSMessage {
    /// The fixed header.
    pub header: Header,
    /// The question section, absent when no question was decoded or added.
    pub question: Option<Vec<Question>>,
    /// The answer section, absent when no answer was decoded or added.
    pub answer: Option<Vec<ResourceRecord>>,
}

impl View for DNSMessage {
    type V = MessageV;

    open spec fn view(&self) -> MessageV {
        MessageV {
            header: self.header,
            question: match self.question {
                Some(qs) => Some(qs.deep_view()),
                None => None,
            },
            answer: match self.answer {
                Some(rs) => Some(rs.deep_view()),
                None => None,
            },
        }
    }
}

impl DeepView for DNSMessage {
    type V = MessageV;

    open spec fn deep_view(&self) -> MessageV {
        self.view()
    }
}

impl Default for DNSMessage {
    fn default() -> (r: Self)
        ensures
            r@ == (MessageV {
                header: crate::header::spec_header_default(),
                question: None,
                answer: None,
            }),
    {
        let header = Header::default();
        Self { header, question: None, answer: None }
    }
}

impl DNSMessage {
    /// How many answers the header counts.
    pub fn answers(&self) -> (r: usize)
        ensures
            r == self.header.an_count as usize,
    {
        self.header.an_count as usize
    }

    /// How many questions the header counts.
    pub fn questions(&self) -> (r: usize)
        ensures
            r == self.header.qd_count as usize,
    {
        self.header.qd_count as usize
    }

    /// Decodes a whole message from a buffer.
    pub fn from_bytes(buf: &[u8]) -> (r: Result<Self, DnsError>)
        ensures
            match r {
                Ok(m) => spec_parse_message(buf@) == Ok::<MessageV, DnsError>(m@)
                    && m@.counts_ok(),
                Err(e) => spec_parse_message(buf@) == Err::<MessageV, DnsError>(e),
            },
    {
        if buf.len() < 12 {
            return Err(DnsError::FormatError);
        }
        let header_bytes: [u8; 12] = [
            buf[0],
            buf[1],
            buf[2],
            buf[3],
            buf[4],
            buf[5],
            buf[6],
            buf[7],
            buf[8],
            buf[9],
            buf[10],
            buf[11],
        ];
        assert(header_bytes@ =~= buf@.subrange(0, 12));
        let header = match Header::from_bytes(header_bytes) {
            Ok(h) => h,
            Err(e) => {
                return Err(e);
            },
        };
        let mut raw = RawMessage::new(buf);
        // The 12 bytes of the header are already parsed.
        raw.current_pos = 12;

        let question = if header.qd_count != 0 {
            let n = header.qd_count;
            let mut questions: Vec<Question> = Vec::with_capacity(n as usize);
            let mut i: u16 = 0;
            proof {
                assert(questions.deep_view() + Seq::<QuestionV>::empty() =~= Seq::<
                    QuestionV,
                >::empty());
            }
            while i < n
                invariant
                    raw.buffer@ == buf@,
                    i <= n,
                    buf@.len() >= 12,
                    spec_parse_header(buf@.subrange(0, 12)) == Ok::<Header, DnsError>(header),
                    n == header.qd_count,
                    questions.deep_view().len() == i as int,
                    raw.current_pos <= buf@.len(),
                    match spec_parse_questions(buf@, raw.current_pos as int, n - i) {
                        Ok((rest, end)) => spec_parse_questions(buf@, 12, n as int) == Ok::<
                            (Seq<QuestionV>, int),
                            DnsError,
                        >((questions.deep_view() + rest, end)),
                        Err(e) => spec_parse_questions(buf@, 12, n as int) == Err::<
                            (Seq<QuestionV>, int),
                            DnsError,
                        >(e),
                    },
                decreases n - i,
            {
                let ghost old_dv = questions.deep_view();
                let ghost cur0 = raw.current_pos as int;
                let q = match Question::from_bytes(&mut raw) {
                    Ok(q) => q,
                    Err(e) => {
                        proof {
                            assert(spec_parse_questions(buf@, cur0, n - i) == Err::<
                                (Seq<QuestionV>, int),
                                DnsError,
                            >(e));
                            assert(spec_parse_message(buf@) == Err::<MessageV, DnsError>(e));
                        }
                        return Err(e);
                    },
                };
                questions.push(q);
                proof {
                    assert(questions.deep_view() =~= old_dv.push(q@));
                    match spec_parse_questions(buf@, raw.current_pos as int, n - i - 1) {
                        Ok((rest, end)) => {
                            assert(old_dv + (seq![q@] + rest) =~= questions.deep_view() + rest);
                        },
                        Err(e) => {},
                    }
                }
                i = i + 1;
            }
            proof {
                assert(questions.deep_view() + Seq::<QuestionV>::empty() =~= questions.deep_view());
            }
            Some(questions)
        } else {
            None
        };
        let ghost qdv = match question {
            Some(ref v) => v.deep_view(),
            None => Seq::<QuestionV>::empty(),
        };
        proof {
            assert(spec_parse_questions(buf@, 12, header.qd_count as int) == Ok::<
                (Seq<QuestionV>, int),
                DnsError,
            >((qdv, raw.current_pos as int)));
        }

        let answer = if header.an_count != 0 {
            let n = header.an_count;
            let mut records: Vec<ResourceRecord> = Vec::with_capacity(n as usize);
            let mut i: u16 = 0;
            let ghost qpos = raw.current_pos as int;
            proof {
                assert(records.deep_view() + Seq::<RrV>::empty() =~= Seq::<RrV>::empty());
            }
            while i < n
                invariant
                    raw.buffer@ == buf@,
                    i <= n,
                    buf@.len() >= 12,
                    spec_parse_header(buf@.subrange(0, 12)) == Ok::<Header, DnsError>(header),
                    n == header.an_count,
                    spec_parse_questions(buf@, 12, header.qd_count as int) == Ok::<
                        (Seq<QuestionV>, int),
                        DnsError,
                    >((qdv, qpos)),
                    records.deep_view().len() == i as int,
                    raw.current_pos <= buf@.len(),
                    match spec_parse_rrs(buf@, raw.current_pos as int, n - i) {
                        Ok((rest, end)) => spec_parse_rrs(buf@, qpos, n as int) == Ok::<
                            (Seq<RrV>, int),
                            DnsError,
                        >((records.deep_view() + rest, end)),
                        Err(e) => spec_parse_rrs(buf@, qpos, n as int) == Err::<
                            (Seq<RrV>, int),
                            DnsError,
                        >(e),
                    },
                decreases n - i,
            {
                let ghost old_dv = records.deep_view();
                let ghost cur0 = raw.current_pos as int;
                let rr = match ResourceRecord::from_bytes(&mut raw) {
                    Ok(rr) => rr,
                    Err(e) => {
                        proof {
                            assert(spec_parse_rrs(buf@, cur0, n - i) == Err::<
                                (Seq<RrV>, int),
                                DnsError,
                            >(e));
                            assert(spec_parse_message(buf@) == Err::<MessageV, DnsError>(e));
                        }
                        return Err(e);
                    },
                };
                records.push(rr);
                proof {
                    assert(records.deep_view() =~= old_dv.push(rr@));
                    match spec_parse_rrs(buf@, raw.current_pos as int, n - i - 1) {
                        Ok((rest, end)) => {
                            assert(old_dv + (seq![rr@] + rest) =~= records.deep_view() + rest);
                        },
                        Err(e) => {},
                    }
                }
                i = i + 1;
            }
            proof {
                assert(records.deep_view() + Seq::<RrV>::empty() =~= records.deep_view());
            }
            Some(records)
        } else {
            None
        };

        Ok(Self { header, question, answer })
    }

    /// Encodes the whole message: header bytes, then each question's bytes
    /// in order, then each answer's bytes in order.
    pub fn to_bytes(&self) -> (r: Vec<u8>)
        ensures
            r@ == spec_message_bytes(self@),
    {
        let mut bytes: Vec<u8> = Vec::new();
        crate::header::push_header(&mut bytes, self.header);
        let ghost qdv = opt_questions(self@.question);
        if let Some(questions) = &self.question {
            let n = questions.len();
            let mut i: usize = 0;
            proof {
                assert(qdv.subrange(0, 0) =~= Seq::<QuestionV>::empty());
            }
            while i < n
                invariant
                    n == questions@.len(),
                    i <= n,
                    qdv == questions.deep_view(),
                    bytes@ == spec_header_bytes(self.header) + spec_questions_bytes(
                        qdv.subrange(0, i as int),
                    ),
                decreases n - i,
            {
                let mut qb = questions[i].to_bytes();
                bytes.append(&mut qb);
                proof {
                    lemma_questions_bytes_snoc(qdv, i as int);
                }
                i = i + 1;
            }
            proof {
                assert(qdv.subrange(0, qdv.len() as int) =~= qdv);
            }
        }
        let ghost adv = opt_answers(self@.answer);
        let ghost qpart = spec_header_bytes(self.header) + spec_questions_bytes(qdv);
        assert(bytes@ == qpart);
        if let Some(records) = &self.answer {
            let n = records.len();
            let mut i: usize = 0;
            proof {
                assert(adv.subrange(0, 0) =~= Seq::<RrV>::empty());
            }
            while i < n
                invariant
                    n == records@.len(),
                    i <= n,
                    adv == records.deep_view(),
                    bytes@ == qpart + spec_rrs_bytes(adv.subrange(0, i as int)),
                decreases n - i,
            {
                let mut rb = records[i].to_bytes();
                bytes.append(&mut rb);
                proof {
                    lemma_rrs_bytes_snoc(adv, i as int);
                }
                i = i + 1;
            }
            proof {
                assert(adv.subrange(0, adv.len() as int) =~= adv);
            }
        }
        assert(bytes@ =~= spec_message_bytes(self@));
        bytes
    }

    /// Builds the direct local reply: the reply header, the original
    /// questions, and one synthesized answer per question.
    #[verifier::loop_isolation(false)]
    pub fn build_reply(self) -> (r: Result<Self, DnsError>)
        requires
            self@.counts_ok(),
        ensures
            match r {
                Ok(rep) => spec_build_reply(self@) == Ok::<MessageV, DnsError>(rep@)
                    && rep@.counts_ok(),
                Err(e) => spec_build_reply(self@) == Err::<MessageV, DnsError>(e),
            },
    {
        let mut reply = DNSMessage {
            header: self.header.build_reply(),
            question: None,
            answer: None,
        };
        reply.header.an_count = 0;
        let ghost qs = opt_questions(self@.question);
        if let Some(questions) = &self.question {
            let n = questions.len();
            let mut i: usize = 0;
            while i < n
                invariant
                    n == questions@.len(),
                    i <= n,
                    n == self.header.qd_count,
                    qs == questions.deep_view(),
                    forall|j: int| 0 <= j < i ==> qs[j].qtype is A,
                    reply.header == (Header {
                        an_count: i as u16,
                        ..spec_header_reply(self.header)
                    }),
                    reply@.question == None::<Seq<QuestionV>>,
                    reply@.answer == (if i == 0 {
                        None::<Seq<RrV>>
                    } else {
                        Some(
                            Seq::new(
                                i as nat,
                                |j: int| crate::answer::spec_answer_record(qs[j].name),
                            ),
                        )
                    }),
                decreases n - i,
            {
                let q = &questions[i];
                let rr = match ResourceRecord::answer_by_type(q.qtype, q.name.as_str()) {
                    Ok(rr) => rr,
                    Err(e) => {
                        proof {
                            assert(qs[i as int] == questions@[i as int]@);
                            assert(!(qs[i as int].qtype is A));
                        }
                        return Err(e);
                    },
                };
                let ghost old_answers = opt_answers(reply@.answer);
                reply.add_answer(rr);
                proof {
                    assert(old_answers.push(rr@) =~= Seq::new(
                        (i + 1) as nat,
                        |j: int| crate::answer::spec_answer_record(qs[j].name),
                    ));
                }
                i = i + 1;
            }
        }
        reply.question = self.question;
        proof {
            if opt_questions(self@.question).len() == 0 {
                assert(reply.header == spec_header_reply(self.header));
            }
        }
        Ok(reply)
    }

    /// Appends one answer record, keeping the header's answer count in step
    /// with the answer list.
    pub fn add_answer(&mut self, rr: ResourceRecord)
        requires
            old(self).header.an_count < 65535,
        ensures
            final(self).header == (Header {
                an_count: (old(self).header.an_count + 1) as u16,
                ..old(self).header
            }),
            final(self)@.question == old(self)@.question,
            final(self)@.answer == Some(opt_answers(old(self)@.answer).push(rr@)),
    {
        self.header.an_count = self.header.an_count + 1;
        let ghost old_answers = opt_answers(self@.answer);
        match &mut self.answer {
            Some(answers) => {
                let ghost old_dv = answers.deep_view();
                answers.push(rr);
                proof {
                    assert(answers.deep_view() =~= old_dv.push(rr@));
                }
            },
            None => {
                let mut answers: Vec<ResourceRecord> = Vec::new();
                answers.push(rr);
                proof {
                    assert(answers.deep_view() =~= Seq::<RrV>::empty().push(rr@));
                }
                self.answer = Some(answers);
            },
        }
    }
}

/// Decoding the encoding of a run of well-formed questions, wherever it is
/// embedded in a message, yields the run back and ends right after it.
pub proof fn lemma_questions_parse(buf: Seq<u8>, pos: int, qs: Seq<QuestionV>)
    requires
        forall|i: int| 0 <= i < qs.len() ==> qs[i].wf(),
        0 <= pos,
        pos + spec_questions_bytes(qs).len() <= buf.len(),
        buf.subrange(pos, pos + spec_questions_bytes(qs).len() as int) == spec_questions_bytes(qs),
    ensures
        spec_parse_questions(buf, pos, qs.len() as int) == Ok::<(Seq<QuestionV>, int), DnsError>(
            (qs, pos + spec_questions_bytes(qs).len()),
        ),
    decreases qs.len(),
{
    let enc = spec_questions_bytes(qs);
    if qs.len() == 0 {
        assert(qs =~= Seq::<QuestionV>::empty());
    } else {
        let q0 = qs[0];
        let qe = spec_question_bytes(q0);
        let rest = qs.drop_first();
        let re = spec_questions_bytes(rest);
        assert(enc == qe + re);
        crate::wire::lemma_embedded_split(buf, pos, qe, re);
        lemma_question_parses(buf, pos, q0);
        assert(forall|i: int| 0 <= i < rest.len() ==> rest[i] == qs[i + 1]);
        lemma_questions_parse(buf, pos + qe.len(), rest);
        assert(seq![q0] + rest =~= qs);
    }
}

/// Decoding the encoding of a run of well-formed records, wherever it is
/// embedded in a message, yields the run back and ends right after it.
pub proof fn lemma_rrs_parse(buf: Seq<u8>, pos: int, rs: Seq<RrV>)
    requires
        forall|i: int| 0 <= i < rs.len() ==> rs[i].wf(),
        0 <= pos,
        pos + spec_rrs_bytes(rs).len() <= buf.len(),
        buf.subrange(pos, pos + spec_rrs_bytes(rs).len() as int) == spec_rrs_bytes(rs),
    ensures
        spec_parse_rrs(buf, pos, rs.len() as int) == Ok::<(Seq<RrV>, int), DnsError>(
            (rs, pos + spec_rrs_bytes(rs).len()),
        ),
    decreases rs.len(),
{
    let enc = spec_rrs_bytes(rs);
    if rs.len() == 0 {
        assert(rs =~= Seq::<RrV>::empty());
    } else {
        let r0 = rs[0];
        let re0 = spec_rr_bytes(r0);
        let rest = rs.drop_first();
        let re = spec_rrs_bytes(rest);
        assert(enc == re0 + re);
        crate::wire::lemma_embedded_split(buf, pos, re0, re);
        crate::answer::lemma_rr_parses(buf, pos, r0);
        assert(forall|i: int| 0 <= i < rest.len() ==> rest[i] == rs[i + 1]);
        lemma_rrs_parse(buf, pos + re0.len(), rest);
        assert(seq![r0] + rest =~= rs);
    }
}

/// The round trip of a whole message: decoding the encoding of any
/// well-formed message yields the message back — header, questions and
/// answers alike.
pub proof fn lemma_message_round_trip(m: MessageV)
    requires
        m.wf(),
    ensures
        spec_parse_message(spec_message_bytes(m)) == Ok::<MessageV, DnsError>(m),
{
    let buf = spec_message_bytes(m);
    let hb = spec_header_bytes(m.header);
    let qs = opt_questions(m.question);
    let rs = opt_answers(m.answer);
    let qb = spec_questions_bytes(qs);
    let rb = spec_rrs_bytes(rs);
    assert(hb.len() == 12);
    assert(buf.subrange(0, 12) =~= hb);
    crate::header::lemma_header_round_trip(m.header);
    assert(buf.subrange(12, 12 + qb.len() as int) =~= qb);
    lemma_questions_parse(buf, 12, qs);
    assert(qs.len() == m.header.qd_count as int);
    let p = 12 + qb.len() as int;
    assert(buf.subrange(p, p + rb.len() as int) =~= rb);
    lemma_rrs_parse(buf, p, rs);
    assert(rs.len() == m.header.an_count as int);
    assert(spec_parse_message(buf) == Ok::<MessageV, DnsError>(
        MessageV {
            header: m.header,
            question: if m.header.qd_count == 0 {
                None
            } else {
                Some(qs)
            },
            answer: if m.header.an_count == 0 {
                None
            } else {
                Some(rs)
            },
        },
    ));
}

/// One more question at the end of a run appends its bytes to the run's.
pub proof fn lemma_questions_bytes_snoc(qs: Seq<QuestionV>, i: int)
    requires
        0 <= i < qs.len(),
    ensures
        spec_questions_bytes(qs.subrange(0, i + 1)) == spec_questions_bytes(qs.subrange(0, i))
            + spec_question_bytes(qs[i]),
    decreases i,
{
    if i == 0 {
        let s1 = qs.subrange(0, 1);
        assert(s1[0] == qs[0]);
        assert(s1.drop_first() =~= Seq::<QuestionV>::empty());
        assert(qs.subrange(0, 0) =~= Seq::<QuestionV>::empty());
        assert(spec_questions_bytes(Seq::<QuestionV>::empty()) == Seq::<u8>::empty());
        assert(spec_questions_bytes(s1) == spec_question_bytes(qs[0]) + Seq::<u8>::empty());
        assert(spec_questions_bytes(s1) =~= spec_question_bytes(qs[0]));
        assert(Seq::<u8>::empty() + spec_question_bytes(qs[0]) =~= spec_question_bytes(qs[0]));
    } else {
        let a = qs.subrange(0, i + 1);
        let b = qs.subrange(0, i);
        lemma_questions_bytes_snoc(qs.drop_first(), i - 1);
        assert(a.drop_first() =~= qs.drop_first().subrange(0, i));
        assert(b.drop_first() =~= qs.drop_first().subrange(0, i - 1));
        assert(a[0] == qs[0] && b[0] == qs[0]);
        assert(qs.drop_first()[i - 1] == qs[i]);
        assert(spec_questions_bytes(a) =~= spec_questions_bytes(b) + spec_question_bytes(qs[i]));
    }
}

/// One more record at the end of a run appends its bytes to the run's.
pub proof fn lemma_rrs_bytes_snoc(rs: Seq<RrV>, i: int)
    requires
        0 <= i < rs.len(),
    ensures
        spec_rrs_bytes(rs.subrange(0, i + 1)) == spec_rrs_bytes(rs.subrange(0, i)) + spec_rr_bytes(
            rs[i],
        ),
    decreases i,
{
    if i == 0 {
        let s1 = rs.subrange(0, 1);
        assert(s1[0] == rs[0]);
        assert(s1.drop_first() =~= Seq::<RrV>::empty());
        assert(rs.subrange(0, 0) =~= Seq::<RrV>::empty());
        assert(spec_rrs_bytes(Seq::<RrV>::empty()) == Seq::<u8>::empty());
        assert(spec_rrs_bytes(s1) == spec_rr_bytes(rs[0]) + Seq::<u8>::empty());
        assert(spec_rrs_bytes(s1) =~= spec_rr_bytes(rs[0]));
        assert(Seq::<u8>::empty() + spec_rr_bytes(rs[0]) =~= spec_rr_bytes(rs[0]));
    } else {
        let a = rs.subrange(0, i + 1);
        let b = rs.subrange(0, i);
        lemma_rrs_bytes_snoc(rs.drop_first(), i - 1);
        assert(a.drop_first() =~= rs.drop_first().subrange(0, i));
        assert(b.drop_first() =~= rs.drop_first().subrange(0, i - 1));
        assert(a[0] == rs[0] && b[0] == rs[0]);
        assert(rs.drop_first()[i - 1] == rs[i]);
        assert(spec_rrs_bytes(a) =~= spec_rrs_bytes(b) + spec_rr_bytes(rs[i]));
    }
}

} // verus!
