//! A DNS message codec and a single-in-flight forwarding relay.
//!
//! The library decodes query packets, answers them from a small static name
//! table, and — when the caller runs it against an upstream resolver — splits
//! a multi-question request into single-question upstream queries and
//! reassembles the collected answers into one reply.  All socket work is left
//! to the caller; the library only turns bytes into messages and back.

pub mod answer;
pub mod error;
pub mod header;
pub mod message;
pub mod name;
pub mod question;
pub mod wire;

use vstd::prelude::*;

use crate::answer::RrV;
use crate::error::DnsError;
use crate::header::{spec_header_reply, Header};
use crate::message::{
    opt_answers, opt_questions, spec_build_reply, spec_message_bytes, spec_parse_message,
    DNSMessage, MessageV,
};
use crate::question::Question;

verus! {

/// The single-question upstream query the relay sends next: the accumulated
/// header with the question count forced to one, and only the question whose
/// answer has not arrived yet — the one at the index of the answers collected
/// so far.
pub open spec fn spec_forward_message(m: MessageV) -> MessageV {
    MessageV {
        header: Header { qd_count: 1, ..m.header },
        question: Some(seq![opt_questions(m.question)[m.header.an_count as int]]),
        answer: None,
    }
}

/// One in-flight forwarding session: the client's request accumulating the
/// answers collected from the upstream resolver, and where the final reply
/// must go.  The design supports exactly one session at a time; the caller's
/// loop must not open a second one before this one completes.
pub struct Forwarder<D> {
    /// The address of the client that sent the original request.
    pub destination: D,
    /// The client's request, accumulating the answers collected so far.
    pub message: DNSMessage,
}

impl<D> Forwarder<D> {
    /// The accumulating message.
    pub open spec fn msg(&self) -> MessageV {
        self.message@
    }

    /// The session invariant: the accumulated message's counts agree with
    /// its sections.
    pub open spec fn wf(&self) -> bool {
        self.msg().counts_ok()
    }

    /// Whether every question has been answered, so that the session's reply
    /// can be built and the session discarded.
    pub fn is_complete(&self) -> (r: bool)
        ensures
            r == (self.msg().header.an_count >= self.msg().header.qd_count),
    {
        self.message.header.an_count >= self.message.header.qd_count
    }

    /// Serialises the next single-question upstream query.  It reuses the
    /// accumulated header with the question count forced to one, and carries
    /// the question at the index of the answers collected so far — answers
    /// are assumed to arrive in the order the questions were asked.
    pub fn forward(&mut self) -> (r: Result<Vec<u8>, DnsError>)
        requires
            old(self).wf(),
            old(self).msg().header.an_count < old(self).msg().header.qd_count,
        ensures
            *final(self) == *old(self),
            match r {
                Ok(b) => b@ == spec_message_bytes(spec_forward_message(old(self).msg())),
                Err(_) => false,
            },
    {
        let mut message = DNSMessage::default();
        message.header = self.message.header;
        // One question at a time goes upstream.
        message.header.qd_count = 1;
        if let Some(q) = &self.message.question {
            let question = &q[self.message.answers()];
            let mut one: Vec<Question> = Vec::new();
            one.push(question.clone());
            message.question = Some(one);
            proof {
                assert(one.deep_view() =~= seq![
                    opt_questions(self.msg().question)[self.msg().header.an_count as int],
                ]);
            }
        }
        Ok(message.to_bytes())
    }

    /// Ingests one upstream reply: its first answer is appended to the
    /// session, and the result says whether the session is now complete —
    /// the collected answers match the original questions.  An upstream
    /// reply without answers completes the session at once, leaving the
    /// session unchanged.
    pub fn add_answer(&mut self, buf: &[u8]) -> (r: Result<bool, DnsError>)
        requires
            old(self).wf(),
            old(self).msg().header.an_count < old(self).msg().header.qd_count,
        ensures
            final(self).destination == old(self).destination,
            final(self).wf(),
            match r {
                Ok(complete) => match spec_parse_message(buf@) {
                    Ok(reply) => match reply.answer {
                        Some(ans) => final(self).msg() == (MessageV {
                            header: Header {
                                an_count: (old(self).msg().header.an_count + 1) as u16,
                                ..old(self).msg().header
                            },
                            question: old(self).msg().question,
                            answer: Some(opt_answers(old(self).msg().answer).push(ans[0])),
                        }) && complete == (old(self).msg().header.an_count + 1 == old(
                            self,
                        ).msg().header.qd_count),
                        None => *final(self) == *old(self) && complete == true,
                    },
                    Err(_) => false,
                },
                Err(e) => spec_parse_message(buf@) == Err::<MessageV, DnsError>(e) && *final(self)
                    == *old(self),
            },
    {
        let reply = match DNSMessage::from_bytes(buf) {
            Ok(m) => m,
            Err(e) => {
                return Err(e);
            },
        };
        match reply.answer {
            Some(mut ans) => {
                let answer = ans.remove(0);
                self.message.add_answer(answer);
                proof {
                    assert(answer@ == opt_answers(reply@.answer)[0]);
                }
                Ok(self.message.questions() == self.message.answers())
            },
            // No answer came back: finish the session as it stands.
            None => Ok(true),
        }
    }

    /// Turns the accumulated message into the final reply for the client:
    /// the header goes through the reply transform and the whole message is
    /// serialised — original questions first, collected answers after them.
    pub fn build_reply(&mut self) -> (r: Vec<u8>)
        ensures
            final(self).destination == old(self).destination,
            final(self).msg() == (MessageV {
                header: spec_header_reply(old(self).msg().header),
                question: old(self).msg().question,
                answer: old(self).msg().answer,
            }),
            r@ == spec_message_bytes(final(self).msg()),
    {
        self.message.header = self.message.header.build_reply();
        self.message.to_bytes()
    }
}

/// Parses the buffer as a message and builds the direct local reply:
/// the reply header, the original questions, and one answer per question
/// synthesised from the local table.
pub fn parse_and_reply(buf: &[u8]) -> (r: Result<Vec<u8>, DnsError>)
    ensures
        match spec_parse_message(buf@) {
            Ok(m) => match spec_build_reply(m) {
                Ok(rep) => match r {
                    Ok(b) => b@ == spec_message_bytes(rep),
                    Err(_) => false,
                },
                Err(e) => r == Err::<Vec<u8>, DnsError>(e),
            },
            Err(e) => r == Err::<Vec<u8>, DnsError>(e),
        },
{
    let message = match DNSMessage::from_bytes(buf) {
        Ok(m) => m,
        Err(e) => {
            return Err(e);
        },
    };
    let reply = match message.build_reply() {
        Ok(m) => m,
        Err(e) => {
            return Err(e);
        },
    };
    Ok(reply.to_bytes())
}

/// Opens a forwarding session: the buffer decodes into the session's
/// accumulating message, and the reply will go to the given destination.
pub fn create_forwarder<D>(buf: &[u8], destination: D) -> (r: Result<Forwarder<D>, DnsError>)
    ensures
        match r {
            Ok(f) => spec_parse_message(buf@) == Ok::<MessageV, DnsError>(f.msg()) && f.wf()
                && f.destination == destination,
            Err(e) => spec_parse_message(buf@) == Err::<MessageV, DnsError>(e),
        },
{
    let request = match DNSMessage::from_bytes(buf) {
        Ok(m) => m,
        Err(e) => {
            return Err(e);
        },
    };
    Ok(Forwarder { destination, message: request })
}

} // verus!
