//! The `init` message: the two feature bitfields a peer sends first.
use vstd::prelude::*;
use crate::cursor::{ReadCursor, WriteCursor, be_u16, be_bytes};
use crate::features::{
    lemma_bitfield_round_trip, FeatureFlag, MalformedFeatureFlagError, UnfilteredGlobalFeatures, UnfilteredLocalFeatures,
    bitfield_well_formed, parse_bitfield, serialize_bitfield,
};
use crate::msg::MsgTooShortError;

verus! {

pub struct InitMsg {
    pub global_features: UnfilteredGlobalFeatures,
    pub local_features: UnfilteredLocalFeatures,
}

#[derive(Debug, PartialEq, Eq, Structural, Clone, Copy)]
pub enum InitMsgFromPayloadError {
    PayloadTooShort(MsgTooShortError),
    ParseGlobalFeatures(MalformedFeatureFlagError),
    ParseLocalFeatures(MalformedFeatureFlagError),
}

impl From<MsgTooShortError> for InitMsgFromPayloadError {
    fn from(err: MsgTooShortError) -> (r: InitMsgFromPayloadError)
        ensures
            r == InitMsgFromPayloadError::PayloadTooShort(err),
    {
        InitMsgFromPayloadError::PayloadTooShort(err)
    }
}

impl vstd::std_specs::convert::FromSpecImpl<MsgTooShortError> for InitMsgFromPayloadError {
    open spec fn obeys_from_spec() -> bool {
        true
    }

    open spec fn from_spec(err: MsgTooShortError) -> InitMsgFromPayloadError {
        InitMsgFromPayloadError::PayloadTooShort(err)
    }
}

/// A bitfield on the wire: its length in bytes as a big-endian `u16`, then its bytes.
pub open spec fn encode_bitfield_field(flags: Seq<FeatureFlag>) -> Seq<u8> {
    be_bytes(((flags.len() + 3) / 4) as u16) + serialize_bitfield(flags)
}

/// The payload of an `init` message with these global and local flags.
pub open spec fn encode_init(global: Seq<FeatureFlag>, local: Seq<FeatureFlag>) -> Seq<u8> {
    encode_bitfield_field(global) + encode_bitfield_field(local)
}

/// Each bitfield of the message fits a `u16` length.
pub open spec fn init_fits(m: InitMsg) -> bool {
    m.global_features@.len() <= 4 * 65535 && m.local_features@.len() <= 4 * 65535
}

/// What decoding an `init` payload gives: the global then the local flags,
/// or the first error met reading from the front.
pub open spec fn init_payload_result(p: Seq<u8>) -> Result<
    (Seq<FeatureFlag>, Seq<FeatureFlag>),
    InitMsgFromPayloadError,
> {
    let short = Err(InitMsgFromPayloadError::PayloadTooShort(MsgTooShortError));
    if p.len() < 2 {
        short
    } else {
        let g = be_u16(p[0], p[1]);
        if p.len() < 2 + g {
            short
        } else if !bitfield_well_formed(p.subrange(2, 2 + g)) {
            Err(InitMsgFromPayloadError::ParseGlobalFeatures(MalformedFeatureFlagError))
        } else if p.len() < 4 + g {
            short
        } else {
            let l = be_u16(p[2 + g], p[3 + g]);
            if p.len() < 4 + g + l {
                short
            } else if !bitfield_well_formed(p.subrange(4 + g, 4 + g + l)) {
                Err(InitMsgFromPayloadError::ParseLocalFeatures(MalformedFeatureFlagError))
            } else {
                Ok(
                    (
                        parse_bitfield(p.subrange(2, 2 + g)),
                        parse_bitfield(p.subrange(4 + g, 4 + g + l)),
                    ),
                )
            }
        }
    }
}

proof fn lemma_be_u16_of_bytes(v: u16)
    ensures
        be_u16(be_bytes(v)[0], be_bytes(v)[1]) == v,
{
}

/// Reading back the two length-prefixed fields of a payload.
proof fn lemma_fields_read_back(global: Seq<u8>, local: Seq<u8>, p: Seq<u8>)
    requires
        global.len() <= 65535,
        local.len() <= 65535,
        p == be_bytes(global.len() as u16) + global + be_bytes(local.len() as u16) + local,
    ensures
        p.len() == 4 + global.len() + local.len(),
        be_u16(p[0], p[1]) == global.len(),
        p.subrange(2, 2 + global.len() as int) == global,
        be_u16(p[2 + global.len() as int], p[3 + global.len() as int]) == local.len(),
        p.subrange(4 + global.len() as int, 4 + global.len() as int + local.len() as int) == local,
{
    let g = global.len() as int;
    let l = local.len() as int;
    lemma_be_u16_of_bytes(g as u16);
    lemma_be_u16_of_bytes(l as u16);
    assert(p[0] == be_bytes(g as u16)[0] && p[1] == be_bytes(g as u16)[1]);
    assert(p[2 + g] == be_bytes(l as u16)[0] && p[3 + g] == be_bytes(l as u16)[1]);
    assert(p.subrange(2, 2 + g) =~= global);
    assert(p.subrange(4 + g, 4 + g + l) =~= local);
}

/// Encoding the flags of two well-formed bitfields as an `init` payload and
/// decoding the payload gives back the same flags.
pub proof fn lemma_init_round_trip(global: Seq<u8>, local: Seq<u8>)
    requires
        bitfield_well_formed(global),
        bitfield_well_formed(local),
        global.len() <= 65535,
        local.len() <= 65535,
    ensures
        init_payload_result(encode_init(parse_bitfield(global), parse_bitfield(local))) == Ok::<
            (Seq<FeatureFlag>, Seq<FeatureFlag>),
            InitMsgFromPayloadError,
        >((parse_bitfield(global), parse_bitfield(local))),
{
    let gf = parse_bitfield(global);
    let lf = parse_bitfield(local);
    lemma_bitfield_round_trip(global);
    lemma_bitfield_round_trip(local);
    assert(((gf.len() + 3) / 4) == global.len());
    assert(((lf.len() + 3) / 4) == local.len());
    let p = encode_init(gf, lf);
    assert(p =~= be_bytes(global.len() as u16) + global + be_bytes(local.len() as u16) + local);
    lemma_fields_read_back(global, local, p);
}

impl InitMsg {
    pub fn from_payload(payload: &[u8]) -> (r: Result<InitMsg, InitMsgFromPayloadError>)
        ensures
            r matches Ok(m) ==> init_payload_result(payload@) == Ok::<
                (Seq<FeatureFlag>, Seq<FeatureFlag>),
                InitMsgFromPayloadError,
            >((m.global_features@, m.local_features@)),
            r matches Err(e) ==> init_payload_result(payload@) == Err::<
                (Seq<FeatureFlag>, Seq<FeatureFlag>),
                InitMsgFromPayloadError,
            >(e),
    {
        let mut cursor = ReadCursor::new(payload);
        let gflen = match cursor.read_u16() {
            Ok(v) => v,
            Err(e) => return Err(InitMsgFromPayloadError::PayloadTooShort(e)),
        };
        let gslice = match cursor.read_slice(gflen as usize) {
            Ok(s) => s,
            Err(e) => return Err(InitMsgFromPayloadError::PayloadTooShort(e)),
        };
        let global_features = match UnfilteredGlobalFeatures::from_feature_flags(gslice) {
            Ok(f) => f,
            Err(e) => return Err(InitMsgFromPayloadError::ParseGlobalFeatures(e)),
        };
        let lflen = match cursor.read_u16() {
            Ok(v) => v,
            Err(e) => return Err(InitMsgFromPayloadError::PayloadTooShort(e)),
        };
        let lslice = match cursor.read_slice(lflen as usize) {
            Ok(s) => s,
            Err(e) => return Err(InitMsgFromPayloadError::PayloadTooShort(e)),
        };
        let local_features = match UnfilteredLocalFeatures::from_feature_flags(lslice) {
            Ok(f) => f,
            Err(e) => return Err(InitMsgFromPayloadError::ParseLocalFeatures(e)),
        };
        Ok(InitMsg { global_features, local_features })
    }

    pub fn write_to_cursor(&self, cursor: &mut WriteCursor)
        requires
            init_fits(*self),
        ensures
            final(cursor).written() == old(cursor).written() + encode_init(
                self.global_features@,
                self.local_features@,
            ),
    {
        cursor.write_u16(self.global_features.num_bytes() as u16);
        self.global_features.write_to_cursor(cursor);
        cursor.write_u16(self.local_features.num_bytes() as u16);
        self.local_features.write_to_cursor(cursor);
        assert(final(cursor).written() =~= old(cursor).written() + encode_init(
            self.global_features@,
            self.local_features@,
        ));
    }
}

} // verus!
