//! One question entry: a name, a type and a class.

use vstd::prelude::*;

use crate::error::DnsError;
use crate::message::{
    class_code, parse_labels, spec_class_from, spec_type_from, type_code, Class, RawMessage, Type,
};
use crate::name::{
    lemma_encoded_name_parses, push_name, spec_name_bytes, spec_parse_name, wf_name_bytes,
};
use crate::wire::{lemma_u16_round, read_u16, u16_be, u16_of};

verus! {

use vstd::string::StringSliceAdditionalSpecFns;
use vstd::utf8::{encode_utf8, decode_utf8, encode_utf8_decode_utf8, encode_utf8_valid_utf8};

/// The mathematical value of a question.
pub ghost struct QuestionV {
    /// The domain name as dotted text.
    pub name: Seq<char>,
    /// The query type.
    pub qtype: Type,
    /// The query class.
    pub class: Class,
}

/// A question entry.
#[derive(Debug, PartialEq)]
pub struct Question {
    /// The domain name as dotted text.
    pub name: String,
    /// The query type, 2 bytes on the wire.
    pub qtype: Type,
    /// The query class, 2 bytes on the wire.
    pub class: Class,
}

impl View for Question {
    type V = QuestionV;

    open spec fn view(&self) -> QuestionV {
        QuestionV { name: self.name@, qtype: self.qtype, class: self.class }
    }
}

impl DeepView for Question {
    type V = QuestionV;

    open spec fn deep_view(&self) -> QuestionV {
        self.view()
    }
}

impl Clone for Question {
    fn clone(&self) -> (r: Self)
        ensures
            r@ == self@,
    {
        Question { name: self.name.clone(), qtype: self.qtype, class: self.class }
    }
}

impl Default for Question {
    fn default() -> (r: Self)
        ensures
            r@ == (QuestionV { name: Seq::<char>::empty(), qtype: Type::A, class: Class::IN }),
    {
        Question { name: String::new(), qtype: Type::A, class: Class::IN }
    }
}

/// The wire bytes of a question: the uncompressed name, then type and class.
pub open spec fn spec_question_bytes(q: QuestionV) -> Seq<u8> {
    spec_name_bytes(encode_utf8(q.name)) + u16_be(type_code(q.qtype)) + u16_be(class_code(q.class))
}

/// The result of decoding the question at `pos`: the question and the
/// position after it.
pub open spec fn spec_parse_question(buf: Seq<u8>, pos: int) -> Result<(QuestionV, int), DnsError> {
    match spec_parse_name(buf, pos) {
        Ok((nb, p)) => if p + 4 > buf.len() {
            Err(DnsError::FormatError)
        } else {
            match spec_type_from(u16_of(buf[p], buf[p + 1])) {
                Ok(t) => match spec_class_from(u16_of(buf[p + 2], buf[p + 3])) {
                    Ok(c) => Ok((QuestionV { name: decode_utf8(nb), qtype: t, class: c }, p + 4)),
                    Err(e) => Err(e),
                },
                Err(e) => Err(e),
            }
        },
        Err(e) => Err(e),
    }
}

impl QuestionV {
    /// A question is well formed when its name is: every label between 1
    /// and 63 bytes long.
    pub open spec fn wf(self) -> bool {
        wf_name_bytes(encode_utf8(self.name))
    }
}

impl Question {
    /// Decodes the question at the cursor, leaving the cursor after it.
    pub fn from_bytes(bytes: &mut RawMessage) -> (r: Result<Self, DnsError>)
        ensures
            final(bytes).buffer == old(bytes).buffer,
            match r {
                Ok(q) => spec_parse_question(old(bytes).buffer@, old(bytes).current_pos as int)
                    == Ok::<(QuestionV, int), DnsError>(
                    (q@, final(bytes).current_pos as int),
                ) && final(bytes).current_pos <= old(bytes).buffer@.len(),
                Err(e) => spec_parse_question(old(bytes).buffer@, old(bytes).current_pos as int)
                    == Err::<(QuestionV, int), DnsError>(e),
            },
    {
        let name = match parse_labels(bytes) {
            Ok(n) => n,
            Err(e) => {
                return Err(e);
            },
        };
        proof {
            encode_utf8_decode_utf8(name@);
        }
        let tb = match bytes.current_and_advance_range(2) {
            Ok(s) => s,
            Err(e) => {
                return Err(e);
            },
        };
        let qtype = match Type::from_code(read_u16(tb[0], tb[1])) {
            Ok(t) => t,
            Err(e) => {
                return Err(e);
            },
        };
        let cb = match bytes.current_and_advance_range(2) {
            Ok(s) => s,
            Err(e) => {
                return Err(e);
            },
        };
        let class = match Class::from_code(read_u16(cb[0], cb[1])) {
            Ok(c) => c,
            Err(e) => {
                return Err(e);
            },
        };
        Ok(Self { name, qtype, class })
    }

    /// Encodes the question, with the name written uncompressed.
    pub fn to_bytes(&self) -> (r: Vec<u8>)
        ensures
            r@ == spec_question_bytes(self@),
    {
        let mut bytes: Vec<u8> = Vec::new();
        push_name(&mut bytes, self.name.as_str());
        crate::wire::push_u16(&mut bytes, self.qtype.code());
        crate::wire::push_u16(&mut bytes, self.class.code());
        assert(bytes@ =~= spec_question_bytes(self@));
        bytes
    }
}

/// Every type value written can be read back.
pub proof fn lemma_type_code_round(t: Type)
    ensures
        spec_type_from(type_code(t)) == Ok::<Type, DnsError>(t),
{
}

/// Every class value written can be read back.
pub proof fn lemma_class_code_round(c: Class)
    ensures
        spec_class_from(class_code(c)) == Ok::<Class, DnsError>(c),
{
}

/// Decoding the encoding of a well-formed question, wherever it is embedded
/// in a message, yields the question back and ends right after it.
pub proof fn lemma_question_parses(buf: Seq<u8>, pos: int, q: QuestionV)
    requires
        q.wf(),
        0 <= pos,
        pos + spec_question_bytes(q).len() <= buf.len(),
        buf.subrange(pos, pos + spec_question_bytes(q).len() as int) == spec_question_bytes(q),
    ensures
        spec_parse_question(buf, pos) == Ok::<(QuestionV, int), DnsError>(
            (q, pos + spec_question_bytes(q).len()),
        ),
{
    let nb = encode_utf8(q.name);
    let ne = spec_name_bytes(nb);
    let enc = spec_question_bytes(q);
    let tc = type_code(q.qtype);
    let cc = class_code(q.class);
    assert forall|k: int| pos <= k < pos + enc.len() implies buf[k] == enc[k - pos] by {
        assert(buf.subrange(pos, pos + enc.len() as int)[k - pos] == enc[k - pos]);
    }
    assert(buf.subrange(pos, pos + ne.len() as int) =~= ne);
    lemma_encoded_name_parses(buf, pos, nb, 0);
    encode_utf8_valid_utf8(q.name);
    encode_utf8_decode_utf8(q.name);
    let p = pos + ne.len();
    assert(buf[p] == u16_be(tc)[0] && buf[p + 1] == u16_be(tc)[1]);
    assert(buf[p + 2] == u16_be(cc)[0] && buf[p + 3] == u16_be(cc)[1]);
    lemma_u16_round(tc);
    lemma_u16_round(cc);
    lemma_type_code_round(q.qtype);
    lemma_class_code_round(q.class);
}

} // verus!
