//! Lightning peer discovery: byte cursors, the feature bitfield, the `init`
//! message framing, and the decision logic of DNS seed bootstrapping.
use vstd::prelude::*;

pub mod cursor;
pub mod features;
pub mod msg;
pub mod init;
pub mod srv;
pub mod seeds;
pub mod node_key;

pub use cursor::{ReadCursor, WriteCursor};
pub use features::{
    FeatureFlag, FilterFeaturesError, FilterGlobalFeaturesError, FilterLocalFeaturesError,
    GlobalFeatures, LocalFeatures, MalformedFeatureFlagError, OptionalFeatureFlag,
    UnfilteredGlobalFeatures, UnfilteredLocalFeatures,
};
pub use init::{InitMsg, InitMsgFromPayloadError};
pub use msg::{Msg, MsgFromBytesError, MsgTooShortError, MsgType, UnknownMsgType};
pub use node_key::{key_bytes_from_label, node_key_from_label};
pub use seeds::{SeedAction, SeedRotation};
pub use srv::{SrvRecord, order_srv_records, pick_weighted};
