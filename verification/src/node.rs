//! The node: the stateful participant behind the dispatch loop.
//!
//! A node is created once, by the one `Init` request, and then answers one
//! application-phase request per input line.  Its replies are proved to
//! swap the request's addresses, to carry `in_reply_to` equal to the
//! request's `msg_id`, and — for the echo protocol — to return the request's
//! text unchanged under a strictly increasing fresh `msg_id`.

use vstd::prelude::*;
use crate::protocol::{Error, InitData, EchoData, Message, Payload, MessageV, PayloadV, InitDataV,
    EchoDataV};
use crate::codec::{decode_init, decode_echo, encode_init, encode_echo, spec_decode_init,
    spec_decode_echo, spec_encode_init, spec_encode_echo};

verus! {

/// The reply owed to an `Init` request: addresses swapped, `in_reply_to`
/// correlated, a fresh `msg_id` of zero, and an `InitOk` body.
pub open spec fn init_reply(m: MessageV<InitDataV>) -> MessageV<InitDataV> {
    MessageV {
        src: m.dest,
        dest: m.src,
        body: PayloadV {
            msg_id: Some(0usize),
            in_reply_to: m.body.msg_id,
            typed_data: InitDataV::InitOk,
        },
    }
}

/// The text carried by an echo body.
pub open spec fn echo_text(d: EchoDataV) -> Seq<char> {
    match d {
        EchoDataV::Echo { echo } => echo,
        EchoDataV::EchoOk { echo } => echo,
    }
}

/// The reply owed to an `Echo` request, given the fresh id assigned to it:
/// addresses swapped, `in_reply_to` correlated, the text unchanged.
pub open spec fn echo_reply(m: MessageV<EchoDataV>, id: usize) -> MessageV<EchoDataV> {
    MessageV {
        src: m.dest,
        dest: m.src,
        body: PayloadV {
            msg_id: Some(id),
            in_reply_to: m.body.msg_id,
            typed_data: EchoDataV::EchoOk { echo: echo_text(m.body.typed_data) },
        },
    }
}

/// How an application protocol plugs into the dispatch loop: one `init`
/// for the handshake, then one `handle` per message.  Every reply swaps
/// the request's addresses and correlates `in_reply_to` with its `msg_id`.
pub trait Node<T: View>: Sized {
    /// Whether the node can accept one more message.
    spec fn can_handle(&self) -> bool;

    /// Consume the one `Init` request; construct the node state and the
    /// `InitOk` reply, or fail on anything but an `Init` request.
    fn init(msg: Message<InitData>) -> (r: Result<(Self, Message<InitData>), Error>)
        ensures
            match r {
                Ok(p) => p.1@.src == msg@.dest && p.1@.dest == msg@.src
                    && p.1@.body.in_reply_to == msg@.body.msg_id,
                Err(e) => e == Error::ProtocolViolation,
            },
    ;

    /// Consume one application-phase request and produce its reply, or
    /// fail on a reply-kind message.
    fn handle(&mut self, msg: Message<T>) -> (r: Result<Message<T>, Error>)
        requires
            old(self).can_handle(),
        ensures
            match r {
                Ok(reply) => reply@.src == msg@.dest && reply@.dest == msg@.src
                    && reply@.body.in_reply_to == msg@.body.msg_id,
                Err(e) => e == Error::ProtocolViolation,
            },
    ;
}

/// The echo node: its one piece of state is the counter that numbers
/// outgoing replies.
#[derive(Debug)]
pub struct EchoNode {
    pub id: usize,
}

impl EchoNode {
    /// Answer the `Init` request with `InitOk`, counter at zero; any other
    /// body at this stage is a protocol violation.
    pub fn init(msg: Message<InitData>) -> (r: Result<(EchoNode, Message<InitData>), Error>)
        ensures
            match r {
                Ok(p) => msg@.body.typed_data is Init && p.0.id == 0
                    && p.1@ == init_reply(msg@),
                Err(e) => e == Error::ProtocolViolation && msg@.body.typed_data is InitOk,
            },
    {
        let Message { src, dest, body } = msg;
        let Payload { msg_id, in_reply_to: _, typed_data } = body;
        match typed_data {
            InitData::Init { .. } => Ok((
                EchoNode { id: 0 },
                Message {
                    src: dest,
                    dest: src,
                    body: Payload {
                        msg_id: Some(0),
                        in_reply_to: msg_id,
                        typed_data: InitData::InitOk,
                    },
                },
            )),
            InitData::InitOk => Err(Error::ProtocolViolation),
        }
    }

    /// Answer an `Echo` request with `EchoOk` carrying the same text and a
    /// freshly incremented `msg_id`; an `EchoOk` request is a protocol
    /// violation and leaves the counter unchanged.
    pub fn handle(&mut self, msg: Message<EchoData>) -> (r: Result<Message<EchoData>, Error>)
        requires
            old(self).id < usize::MAX,
        ensures
            match r {
                Ok(reply) => msg@.body.typed_data is Echo
                    && final(self).id == old(self).id + 1
                    && reply@ == echo_reply(msg@, (old(self).id + 1) as usize),
                Err(e) => e == Error::ProtocolViolation && msg@.body.typed_data is EchoOk
                    && final(self).id == old(self).id,
            },
    {
        let Message { src, dest, body } = msg;
        let Payload { msg_id, in_reply_to: _, typed_data } = body;
        match typed_data {
            EchoData::Echo { echo } => {
                self.id = self.id + 1;
                Ok(Message {
                    src: dest,
                    dest: src,
                    body: Payload {
                        msg_id: Some(self.id),
                        in_reply_to: msg_id,
                        typed_data: EchoData::EchoOk { echo },
                    },
                })
            },
            EchoData::EchoOk { .. } => Err(Error::ProtocolViolation),
        }
    }
}

impl Node<EchoData> for EchoNode {
    open spec fn can_handle(&self) -> bool {
        self.id < usize::MAX
    }

    fn init(msg: Message<InitData>) -> (r: Result<(Self, Message<InitData>), Error>) {
        EchoNode::init(msg)
    }

    fn handle(&mut self, msg: Message<EchoData>) -> (r: Result<Message<EchoData>, Error>) {
        EchoNode::handle(self, msg)
    }
}

// ---------------------------------------------------------------------------
// The dispatch loop's per-line steps
// ---------------------------------------------------------------------------

/// One step of the handshake phase: decode the line, run `init`, encode the
/// reply.  On any failure no output is produced.
pub fn process_init_line(line: &[char]) -> (r: Result<(EchoNode, Vec<char>), Error>)
    ensures
        match r {
            Ok(p) => (spec_decode_init(line@) matches Some(m) && m.body.typed_data is Init
                && p.0.id == 0
                && p.1@ == spec_encode_init(init_reply(m))),
            Err(e) => (e == Error::MalformedMessage && spec_decode_init(line@) is None)
                || (e == Error::ProtocolViolation
                    && (spec_decode_init(line@) matches Some(m) && m.body.typed_data is InitOk)),
        },
{
    let msg = match decode_init(line) {
        Ok(m) => m,
        Err(e) => {
            return Err(e);
        },
    };
    let (node, reply) = match EchoNode::init(msg) {
        Ok(p) => p,
        Err(e) => {
            return Err(e);
        },
    };
    let out = encode_init(&reply);
    Ok((node, out))
}

/// One step of the application phase: decode the line, run `handle`, encode
/// the reply.  On any failure no output is produced and the counter is
/// unchanged.
pub fn process_echo_line(node: &mut EchoNode, line: &[char]) -> (r: Result<Vec<char>, Error>)
    requires
        old(node).id < usize::MAX,
    ensures
        match r {
            Ok(out) => (spec_decode_echo(line@) matches Some(m) && m.body.typed_data is Echo
                && final(node).id == old(node).id + 1
                && out@ == spec_encode_echo(echo_reply(m, (old(node).id + 1) as usize))),
            Err(e) => final(node).id == old(node).id
                && ((e == Error::MalformedMessage && spec_decode_echo(line@) is None)
                    || (e == Error::ProtocolViolation
                        && (spec_decode_echo(line@) matches Some(m)
                            && m.body.typed_data is EchoOk))),
        },
{
    let msg = match decode_echo(line) {
        Ok(m) => m,
        Err(e) => {
            return Err(e);
        },
    };
    let reply = match node.handle(msg) {
        Ok(rep) => rep,
        Err(e) => {
            return Err(e);
        },
    };
    let out = encode_echo(&reply);
    Ok(out)
}

// ---------------------------------------------------------------------------
// Monotonic id generation
// ---------------------------------------------------------------------------

/// The `msg_id` values a fresh node assigns over a run of `count`
/// successful `handle` calls: `handle` returns `msg_id == old(self).id + 1`
/// and advances the counter by one, so the `k`-th reply carries `k + 1`.
pub open spec fn assigned_ids(count: nat) -> Seq<nat> {
    Seq::new(count, |k: int| (k + 1) as nat)
}

/// **Monotonic id generation.**  Across any run of echo requests handled by
/// one node instance, the generated `msg_id` values are strictly
/// increasing — in particular, no id repeats.
pub proof fn lemma_monotonic_ids(count: nat)
    ensures
        forall|i: int, j: int|
            0 <= i < j < count ==> assigned_ids(count)[i] < assigned_ids(count)[j],
{
}

} // verus!
