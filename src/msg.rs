//! Type-tagged message framing.
use vstd::prelude::*;
use bytes::Bytes;
use crate::cursor::{ReadCursor, WriteCursor, be_u16, be_bytes, frozen_contents};
use crate::features::FeatureFlag;
use crate::init::{InitMsg, InitMsgFromPayloadError, encode_init, init_fits, init_payload_result};

verus! {

/// The type tag of an `init` message.
pub const INIT_TYPE_TAG: u16 = 16;

/// A read ran past the end of the message.
#[derive(Debug, PartialEq, Eq, Structural, Clone, Copy)]
pub struct MsgTooShortError;

/// The message types this library knows.
#[derive(Debug, PartialEq, Eq, Structural, Clone, Copy)]
pub enum MsgType {
    Init,
}

/// A type tag that names no known message.
#[derive(Debug, PartialEq, Eq, Structural, Clone, Copy)]
pub struct UnknownMsgType {
    pub type_tag: u16,
}

pub enum Msg {
    Init(InitMsg),
}

#[derive(Debug, PartialEq, Eq, Structural, Clone, Copy)]
pub enum MsgFromBytesError {
    UnknownMsgType(UnknownMsgType),
    MsgTooShort(MsgTooShortError),
    Init(InitMsgFromPayloadError),
}

/// What decoding a framed message gives: for an `init` message its global
/// and local flags, or the first error met reading from the front.
pub open spec fn msg_result(b: Seq<u8>) -> Result<
    (Seq<FeatureFlag>, Seq<FeatureFlag>),
    MsgFromBytesError,
> {
    if b.len() < 2 {
        Err(MsgFromBytesError::MsgTooShort(MsgTooShortError))
    } else if be_u16(b[0], b[1]) != INIT_TYPE_TAG {
        Err(MsgFromBytesError::UnknownMsgType(UnknownMsgType { type_tag: be_u16(b[0], b[1]) as u16 }))
    } else {
        match init_payload_result(b.subrange(2, b.len() as int)) {
            Ok(p) => Ok(p),
            Err(e) => Err(MsgFromBytesError::Init(e)),
        }
    }
}

impl MsgType {
    pub fn from_type_tag(type_tag: u16) -> (r: Result<MsgType, UnknownMsgType>)
        ensures
            r == if type_tag == INIT_TYPE_TAG {
                Ok::<MsgType, UnknownMsgType>(MsgType::Init)
            } else {
                Err(UnknownMsgType { type_tag })
            },
    {
        if type_tag == INIT_TYPE_TAG {
            Ok(MsgType::Init)
        } else {
            Err(UnknownMsgType { type_tag })
        }
    }

    pub fn type_tag(&self) -> (r: u16)
        ensures
            r == INIT_TYPE_TAG,
    {
        match self {
            MsgType::Init => INIT_TYPE_TAG,
        }
    }
}

impl UnknownMsgType {
    /// Odd type tags name messages a peer may skip.
    pub fn can_ignore(&self) -> (r: bool)
        ensures
            r == (self.type_tag % 2 == 1),
    {
        self.type_tag % 2 == 1
    }
}

impl Msg {
    pub fn msg_type(&self) -> (r: MsgType)
        ensures
            r == MsgType::Init,
    {
        match self {
            Msg::Init(_) => MsgType::Init,
        }
    }

    /// The type tag, big-endian, then the payload.
    pub fn to_bytes(&self) -> (r: Bytes)
        requires
            match self {
                Msg::Init(m) => init_fits(*m),
            },
        ensures
            match self {
                Msg::Init(m) => frozen_contents(r) == be_bytes(INIT_TYPE_TAG) + encode_init(
                    m.global_features@,
                    m.local_features@,
                ),
            },
    {
        let mut cursor = WriteCursor::new();
        match self {
            Msg::Init(init_msg) => {
                cursor.write_u16(MsgType::Init.type_tag());
                init_msg.write_to_cursor(&mut cursor);
            },
        }
        let r = cursor.into_bytes();
        match self {
            Msg::Init(m) => {
                assert(frozen_contents(r) =~= be_bytes(INIT_TYPE_TAG) + encode_init(
                    m.global_features@,
                    m.local_features@,
                ));
            },
        }
        r
    }

    pub fn from_bytes(bytes: &[u8]) -> (r: Result<Msg, MsgFromBytesError>)
        ensures
            r matches Ok(Msg::Init(m)) ==> msg_result(bytes@) == Ok::<
                (Seq<FeatureFlag>, Seq<FeatureFlag>),
                MsgFromBytesError,
            >((m.global_features@, m.local_features@)),
            r matches Err(e) ==> msg_result(bytes@) == Err::<
                (Seq<FeatureFlag>, Seq<FeatureFlag>),
                MsgFromBytesError,
            >(e),
    {
        let mut cursor = ReadCursor::new(bytes);
        let type_tag = match cursor.read_u16() {
            Ok(t) => t,
            Err(e) => return Err(MsgFromBytesError::MsgTooShort(e)),
        };
        let msg_type = match MsgType::from_type_tag(type_tag) {
            Ok(t) => t,
            Err(e) => return Err(MsgFromBytesError::UnknownMsgType(e)),
        };
        let payload = cursor.read_to_end();
        match msg_type {
            MsgType::Init => match InitMsg::from_payload(payload) {
                Ok(init_msg) => Ok(Msg::Init(init_msg)),
                Err(e) => Err(MsgFromBytesError::Init(e)),
            },
        }
    }
}

} // verus!
