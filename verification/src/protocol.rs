//! The message envelope and the protocol bodies.
//!
//! An [`Message`] carries a [`Payload`] between two named participants.  The
//! payload holds the correlation fields `msg_id` and `in_reply_to` together
//! with one variant of a protocol body: [`InitData`] for the handshake phase,
//! [`EchoData`] for the application phase.

use vstd::prelude::*;

verus! {

/// Why a message was rejected.
#[derive(Debug, Clone, Copy, PartialEq, Eq)]
pub enum Error {
    /// The input line is not a message of the expected shape: not valid
    /// wire text, a required field is absent, or the `type` discriminator
    /// names no known variant.
    MalformedMessage,
    /// A structurally valid message of the wrong variant for the current
    /// phase, e.g. a reply where a request was expected.
    ProtocolViolation,
}

impl Error {
    /// A short human-readable description, for diagnostics at the edge.
    pub fn describe(&self) -> (r: &'static str)
        ensures
            *self is MalformedMessage ==> r@ == "malformed message"@,
            *self is ProtocolViolation ==> r@ == "protocol violation"@,
    {
        match self {
            Error::MalformedMessage => "malformed message",
            Error::ProtocolViolation => "protocol violation",
        }
    }
}

/// Handshake-phase bodies.
#[derive(Debug, Clone, PartialEq)]
pub enum InitData {
    Init { node_id: String, node_ids: Vec<String> },
    InitOk,
}

/// Application-phase bodies for the echo protocol.
#[derive(Debug, Clone, PartialEq)]
pub enum EchoData {
    Echo { echo: String },
    EchoOk { echo: String },
}

/// The content of an envelope: correlation fields plus one body variant.
#[derive(Debug, Clone, PartialEq)]
pub struct Payload<TypedData> {
    pub msg_id: Option<usize>,
    pub in_reply_to: Option<usize>,
    pub typed_data: TypedData,
}

/// One message exchanged between two named participants.
#[derive(Debug, Clone, PartialEq)]
pub struct Message<TypedData> {
    pub src: String,
    pub dest: String,
    pub body: Payload<TypedData>,
}

/// Mathematical model of [`InitData`].
pub enum InitDataV {
    Init { node_id: Seq<char>, node_ids: Seq<Seq<char>> },
    InitOk,
}

/// Mathematical model of [`EchoData`].
pub enum EchoDataV {
    Echo { echo: Seq<char> },
    EchoOk { echo: Seq<char> },
}

/// Mathematical model of [`Payload`].
pub struct PayloadV<B> {
    pub msg_id: Option<usize>,
    pub in_reply_to: Option<usize>,
    pub typed_data: B,
}

/// Mathematical model of [`Message`].
pub struct MessageV<B> {
    pub src: Seq<char>,
    pub dest: Seq<char>,
    pub body: PayloadV<B>,
}

impl View for InitData {
    type V = InitDataV;

    open spec fn view(&self) -> InitDataV {
        match self {
            InitData::Init { node_id, node_ids } => InitDataV::Init {
                node_id: node_id@,
                node_ids: node_ids.deep_view(),
            },
            InitData::InitOk => InitDataV::InitOk,
        }
    }
}

impl View for EchoData {
    type V = EchoDataV;

    open spec fn view(&self) -> EchoDataV {
        match self {
            EchoData::Echo { echo } => EchoDataV::Echo { echo: echo@ },
            EchoData::EchoOk { echo } => EchoDataV::EchoOk { echo: echo@ },
        }
    }
}

impl<B: View> View for Payload<B> {
    type V = PayloadV<B::V>;

    open spec fn view(&self) -> PayloadV<B::V> {
        PayloadV {
            msg_id: self.msg_id,
            in_reply_to: self.in_reply_to,
            typed_data: self.typed_data@,
        }
    }
}

impl<B: View> View for Message<B> {
    type V = MessageV<B::V>;

    open spec fn view(&self) -> MessageV<B::V> {
        MessageV { src: self.src@, dest: self.dest@, body: self.body@ }
    }
}

} // verus!
