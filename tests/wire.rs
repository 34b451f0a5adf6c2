use ln_bootstrap::{
    FeatureFlag, FilterFeaturesError, FilterGlobalFeaturesError, FilterLocalFeaturesError,
    InitMsg, InitMsgFromPayloadError, LocalFeatures, MalformedFeatureFlagError, Msg,
    MsgFromBytesError, MsgTooShortError, MsgType, OptionalFeatureFlag, ReadCursor,
    UnfilteredGlobalFeatures, UnfilteredLocalFeatures, UnknownMsgType, WriteCursor,
};

fn global(bytes: &[u8]) -> UnfilteredGlobalFeatures {
    UnfilteredGlobalFeatures::from_feature_flags(bytes).unwrap()
}

fn local(bytes: &[u8]) -> UnfilteredLocalFeatures {
    UnfilteredLocalFeatures::from_feature_flags(bytes).unwrap()
}

#[test]
fn read_slice_within_bounds() {
    let data = [1u8, 2, 3, 4, 5];
    let mut c = ReadCursor::new(&data);
    assert_eq!(c.read_slice(2).unwrap(), &[1u8, 2][..]);
    assert_eq!(c.read_slice(3).unwrap(), &[3u8, 4, 5][..]);
    assert_eq!(c.read_slice(0).unwrap(), &[] as &[u8]);
    assert!(c.read_slice(1).is_err());
}

#[test]
fn read_slice_too_long_keeps_position() {
    let data = [9u8, 8, 7];
    let mut c = ReadCursor::new(&data);
    assert_eq!(c.read_slice(4), Err(MsgTooShortError));
    assert_eq!(c.read_slice(usize::MAX), Err(MsgTooShortError));
    assert_eq!(c.read_slice(3).unwrap(), &[9u8, 8, 7][..]);
}

#[test]
fn read_u16_is_big_endian() {
    let data = [0x01u8, 0x02, 0xff];
    let mut c = ReadCursor::new(&data);
    assert_eq!(c.read_u16(), Ok(0x0102));
    assert_eq!(c.read_u16(), Err(MsgTooShortError));
    assert_eq!(c.read_to_end(), &[0xffu8][..]);
    assert_eq!(c.read_to_end(), &[] as &[u8]);
}

#[test]
fn write_cursor_appends() {
    let mut w = WriteCursor::new();
    w.write_u16(0xabcd);
    w.write_slice(&[1, 2, 3]);
    w.write_u16(16);
    let b = w.into_bytes();
    assert_eq!(&b[..], &[0xabu8, 0xcd, 1, 2, 3, 0, 16][..]);
}

#[test]
fn bitfield_round_trip() {
    for bytes in [vec![], vec![0x82u8], vec![0x19u8, 0xa6], vec![0x00u8, 0x00, 0x01]] {
        let f = global(&bytes);
        let mut w = WriteCursor::new();
        f.write_to_cursor(&mut w);
        assert_eq!(f.num_bytes(), bytes.len());
        assert_eq!(&w.into_bytes()[..], &bytes[..]);
    }
}

#[test]
fn malformed_flag_is_rejected() {
    assert_eq!(
        UnfilteredLocalFeatures::from_feature_flags(&[0xC0]),
        Err(MalformedFeatureFlagError)
    );
    assert_eq!(
        UnfilteredGlobalFeatures::from_feature_flags(&[0x03, 0x00]),
        Err(MalformedFeatureFlagError)
    );
    assert!(UnfilteredGlobalFeatures::from_feature_flags(&[0x06]).is_ok());
}

#[test]
fn required_global_feature_is_rejected() {
    assert_eq!(
        global(&[0x01]).filter(),
        Err(FilterGlobalFeaturesError(FilterFeaturesError::UnknownRequiredFeature { index: 0 }))
    );
    assert_eq!(
        global(&[0x04, 0x02]).filter(),
        Err(FilterGlobalFeaturesError(FilterFeaturesError::UnknownRequiredFeature { index: 10 }))
    );
    assert!(global(&[0xaa, 0x82]).filter().is_ok());
    assert!(global(&[]).filter().is_ok());
}

#[test]
fn required_initial_routing_sync_is_rejected() {
    assert_eq!(
        local(&[0x04]).filter(),
        Err(FilterLocalFeaturesError(FilterFeaturesError::FeatureMustNotBeRequired { index: 2 }))
    );
}

#[test]
fn unknown_required_local_feature_is_rejected() {
    assert_eq!(
        local(&[0x01, 0x00]).filter(),
        Err(FilterLocalFeaturesError(FilterFeaturesError::UnknownRequiredFeature { index: 8 }))
    );
    assert!(local(&[0x02, 0x00]).filter().is_ok());
}

#[test]
fn local_features_read_known_flags() {
    let f = local(&[0x82]).filter().unwrap();
    assert_eq!(
        f,
        LocalFeatures {
            option_data_loss_protect: FeatureFlag::Optional,
            initial_routing_sync: OptionalFeatureFlag::No,
            option_upfront_shutdown_script: FeatureFlag::No,
            gossip_queries: FeatureFlag::Optional,
        }
    );
    let empty = local(&[]).filter().unwrap();
    assert_eq!(empty.initial_routing_sync, OptionalFeatureFlag::No);
    assert_eq!(empty.gossip_queries, FeatureFlag::No);
    let mut w = WriteCursor::new();
    f.write_to_cursor(&mut w);
    assert_eq!(&w.into_bytes()[..], &[0u8, 1, 0x82][..]);
}

#[test]
fn global_features_write_empty() {
    let g = global(&[0x02]).filter().unwrap();
    let mut w = WriteCursor::new();
    g.write_to_cursor(&mut w);
    assert_eq!(&w.into_bytes()[..], &[0u8, 0][..]);
}

#[test]
fn odd_type_tags_can_be_ignored() {
    let e = MsgType::from_type_tag(17).err().unwrap();
    assert_eq!(e, UnknownMsgType { type_tag: 17 });
    assert!(e.can_ignore());
    let e = MsgType::from_type_tag(18).err().unwrap();
    assert_eq!(e, UnknownMsgType { type_tag: 18 });
    assert!(!e.can_ignore());
    assert!(MsgType::from_type_tag(16).is_ok());
}

#[test]
fn init_encode_decode() {
    let init = InitMsg { global_features: global(&[]), local_features: local(&[0x82]) };
    let mut w = WriteCursor::new();
    init.write_to_cursor(&mut w);
    assert_eq!(&w.into_bytes()[..], &[0u8, 0, 0, 1, 0x82][..]);

    let msg = Msg::Init(init);
    assert_eq!(msg.msg_type(), MsgType::Init);
    let bytes = msg.to_bytes();
    assert_eq!(&bytes[..], &[0u8, 0x10, 0, 0, 0, 1, 0x82][..]);

    match Msg::from_bytes(&bytes).ok().unwrap() {
        Msg::Init(decoded) => {
            assert_eq!(decoded.global_features, global(&[]));
            assert_eq!(decoded.local_features, local(&[0x82]));
        },
    }
}

#[test]
fn init_payload_errors() {
    assert_eq!(
        InitMsg::from_payload(&[0]).err(),
        Some(InitMsgFromPayloadError::PayloadTooShort(MsgTooShortError))
    );
    assert_eq!(
        InitMsg::from_payload(&[0, 2, 0]).err(),
        Some(InitMsgFromPayloadError::PayloadTooShort(MsgTooShortError))
    );
    assert_eq!(
        InitMsg::from_payload(&[0, 1, 0x30]).err(),
        Some(InitMsgFromPayloadError::ParseGlobalFeatures(MalformedFeatureFlagError))
    );
    assert_eq!(
        InitMsg::from_payload(&[0, 0, 0, 1, 0x03]).err(),
        Some(InitMsgFromPayloadError::ParseLocalFeatures(MalformedFeatureFlagError))
    );
    assert_eq!(
        InitMsg::from_payload(&[0, 0, 0]).err(),
        Some(InitMsgFromPayloadError::PayloadTooShort(MsgTooShortError))
    );
}

#[test]
fn message_errors() {
    assert_eq!(
        Msg::from_bytes(&[0x00]).err(),
        Some(MsgFromBytesError::MsgTooShort(MsgTooShortError))
    );
    assert_eq!(
        Msg::from_bytes(&[0x00, 0x11, 0xff]).err(),
        Some(MsgFromBytesError::UnknownMsgType(UnknownMsgType { type_tag: 17 }))
    );
    assert_eq!(
        Msg::from_bytes(&[0x00, 0x10, 0x00]).err(),
        Some(MsgFromBytesError::Init(InitMsgFromPayloadError::PayloadTooShort(MsgTooShortError)))
    );
}
