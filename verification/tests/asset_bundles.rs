use parity_scale_codec::{Compact, Encode};
use xcm_teleport::asset::{Asset, AssetBundle, AssetId, AssetInstance, Fungibility};
use xcm_teleport::assets::VersionedAssets;
use xcm_teleport::error::DecodeError;
use xcm_teleport::junction::{Junction, NetworkId};
use xcm_teleport::legacy_asset::{LegacyAsset, LegacyAssetBundle};
use xcm_teleport::location::{LegacyLocation, Location};
use xcm_teleport::version::Version;

fn native(amount: u128) -> VersionedAssets {
    VersionedAssets::V1(AssetBundle::single(Asset::native(amount)))
}

fn mixed() -> VersionedAssets {
    let sibling = Location::new(1, vec![Junction::Parachain(2000)]).expect("one junction fits");
    let items = vec![
        Asset::native(5),
        Asset { id: AssetId::Concrete(sibling.clone()), fun: Fungibility::Fungible(u128::MAX) },
        Asset {
            id: AssetId::Concrete(sibling.clone()),
            fun: Fungibility::NonFungible(AssetInstance::Undefined),
        },
        Asset {
            id: AssetId::Concrete(sibling),
            fun: Fungibility::NonFungible(AssetInstance::Index(70000)),
        },
    ];
    VersionedAssets::V1(AssetBundle::new(items).expect("four entries can be counted"))
}

fn legacy() -> VersionedAssets {
    let items = vec![
        LegacyAsset::ConcreteFungible {
            id: LegacyLocation::X1(Junction::Parachain(1002)),
            amount: 1_000_000_000_000,
        },
        LegacyAsset::ConcreteFungible {
            id: LegacyLocation::X1(Junction::AccountId32 { network: NetworkId::Any, id: [9u8; 32] }),
            amount: 0,
        },
    ];
    VersionedAssets::V0(LegacyAssetBundle::new(items).expect("two entries can be counted"))
}

#[test]
fn native_asset_encoding() {
    assert_eq!(
        native(1_000_000_000_000).encode(),
        vec![0x01, 0x04, 0x00, 0x00, 0x00, 0x00, 0x07, 0x00, 0x10, 0xa5, 0xd4, 0xe8]
    );
    assert_eq!(native(0).encode(), vec![0x01, 0x04, 0x00, 0x00, 0x00, 0x00, 0x00]);
}

#[test]
fn native_asset_agrees_with_the_scale_codec() {
    for amount in [0u128, 1, 63, 64, 1_000_000_000_000, u64::MAX as u128, u128::MAX] {
        let theirs = (1u8, vec![(0u8, 0u8, 0u8, 0u8, Compact(amount))]).encode();
        assert_eq!(native(amount).encode(), theirs, "amount {}", amount);
    }
}

#[test]
fn mixed_bundle_encoding() {
    let mut expected = vec![0x01, 0x10];
    expected.extend_from_slice(&[0x00, 0x00, 0x00, 0x00, 0x14]);
    expected.extend_from_slice(&[0x00, 0x01, 0x01, 0x00, 0x41, 0x1f, 0x00, 0x33]);
    expected.extend_from_slice(&[0xff; 16]);
    expected.extend_from_slice(&[0x00, 0x01, 0x01, 0x00, 0x41, 0x1f, 0x01, 0x00]);
    expected.extend_from_slice(&[0x00, 0x01, 0x01, 0x00, 0x41, 0x1f, 0x01, 0x01]);
    expected.extend_from_slice(&[0xc2, 0x45, 0x04, 0x00]);
    assert_eq!(mixed().encode(), expected);
}

#[test]
fn legacy_bundle_encoding() {
    let mut expected = vec![0x00, 0x08];
    expected.extend_from_slice(&[0x0a, 0x01, 0x01, 0xa9, 0x0f]);
    expected.extend_from_slice(&[0x07, 0x00, 0x10, 0xa5, 0xd4, 0xe8]);
    expected.extend_from_slice(&[0x0a, 0x01, 0x02, 0x00]);
    expected.extend_from_slice(&[9u8; 32]);
    expected.push(0x00);
    assert_eq!(legacy().encode(), expected);
}

#[test]
fn empty_bundles() {
    let current = VersionedAssets::V1(AssetBundle::new(Vec::new()).expect("none can be counted"));
    let old = VersionedAssets::V0(LegacyAssetBundle::new(Vec::new()).expect("none can be counted"));
    assert_eq!(current.encode(), vec![0x01, 0x00]);
    assert_eq!(old.encode(), vec![0x00, 0x00]);
    assert_eq!(current.len(), 0);
    assert_eq!(VersionedAssets::decode(&[0x01, 0x00]), Ok(current));
    assert_eq!(VersionedAssets::decode(&[0x00, 0x00]), Ok(old));
}

#[test]
fn bundle_accessors() {
    let bundle = AssetBundle::single(Asset::native(77));
    assert_eq!(bundle.len(), 1);
    assert_eq!(bundle.get(0), Some(&Asset::native(77)));
    assert_eq!(bundle.get(1), None);
    assert_eq!(bundle.clone(), bundle);
    assert_eq!(AssetId::native(), AssetId::Concrete(Location::here()));
    assert_eq!(
        Asset::native(77),
        Asset { id: AssetId::Concrete(Location::here()), fun: Fungibility::Fungible(77) }
    );
    let entry = LegacyAsset::ConcreteFungible {
        id: LegacyLocation::X1(Junction::Parachain(3)),
        amount: 12,
    };
    let old = LegacyAssetBundle::new(vec![entry]).expect("one entry can be counted");
    assert_eq!(old.len(), 1);
    assert_eq!(old.get(0), Some(entry));
    assert_eq!(old.get(1), None);
    assert_eq!(old.clone(), old);
    assert_eq!(native(1).version(), Version::V1);
    assert_eq!(legacy().version(), Version::V0);
    assert_eq!(mixed().len(), 4);
    assert_eq!(legacy().len(), 2);
    assert_eq!(mixed().clone(), mixed());
}

#[test]
fn parts_encode_on_their_own() {
    let mut out = Vec::new();
    Fungibility::Fungible(1002).encode_to(&mut out);
    assert_eq!(out, vec![0x00, 0xa9, 0x0f]);
    out.clear();
    Fungibility::NonFungible(AssetInstance::Index(1)).encode_to(&mut out);
    assert_eq!(out, vec![0x01, 0x01, 0x04]);
    out.clear();
    AssetInstance::Undefined.encode_to(&mut out);
    assert_eq!(out, vec![0x00]);
    out.clear();
    AssetId::native().encode_to(&mut out);
    assert_eq!(out, vec![0x00, 0x00, 0x00]);
    out.clear();
    Asset::native(3).encode_to(&mut out);
    assert_eq!(out, vec![0x00, 0x00, 0x00, 0x00, 0x0c]);
    out.clear();
    AssetBundle::single(Asset::native(3)).encode_to(&mut out);
    assert_eq!(out, vec![0x04, 0x00, 0x00, 0x00, 0x00, 0x0c]);
    out.clear();
    LegacyAsset::ConcreteFungible { id: LegacyLocation::X1(Junction::Parachain(1)), amount: 2 }
        .encode_to(&mut out);
    assert_eq!(out, vec![0x0a, 0x01, 0x01, 0x04, 0x08]);
    out.clear();
    Location::here().encode_to(&mut out);
    assert_eq!(out, vec![0x00, 0x00]);
    out.clear();
    LegacyLocation::X1(Junction::Parachain(1)).encode_to(&mut out);
    assert_eq!(out, vec![0x01, 0x01, 0x04]);
    out.clear();
    Junction::Parachain(1).encode_to(Version::V1, &mut out);
    assert_eq!(out, vec![0x00, 0x04]);
    out.clear();
    native(3).encode_to(&mut out);
    assert_eq!(out, vec![0x01, 0x04, 0x00, 0x00, 0x00, 0x00, 0x0c]);
}

#[test]
fn assets_round_trip() {
    for value in [native(0), native(1_000_000_000_000), native(u128::MAX), mixed(), legacy()] {
        let bytes = value.encode();
        assert_eq!(VersionedAssets::decode(&bytes), Ok(value.clone()));
        assert_eq!(VersionedAssets::decode_as(&bytes, value.version()), Ok(value));
    }
}

#[test]
fn long_bundle_round_trips() {
    let mut items = Vec::new();
    let mut i: u128 = 0;
    while i < 100 {
        items.push(Asset::native(i * 1_000_003));
        i += 1;
    }
    let value = VersionedAssets::V1(AssetBundle::new(items).expect("a hundred can be counted"));
    let bytes = value.encode();
    assert_eq!(&bytes[..3], &[0x01, 0x91, 0x01]);
    assert_eq!(VersionedAssets::decode(&bytes), Ok(value));
}

#[test]
fn decoding_assets_with_the_other_version_fails() {
    assert_eq!(
        VersionedAssets::decode_as(&native(5).encode(), Version::V0),
        Err(DecodeError::VersionMismatch)
    );
    assert_eq!(
        VersionedAssets::decode_as(&legacy().encode(), Version::V1),
        Err(DecodeError::VersionMismatch)
    );
    // no entries: the same payload under either tag
    assert_eq!(
        VersionedAssets::decode_as(&[0x01, 0x00], Version::V0),
        Err(DecodeError::VersionMismatch)
    );
    assert_eq!(
        VersionedAssets::decode_as(&[0x00, 0x00], Version::V1),
        Err(DecodeError::VersionMismatch)
    );
}

#[test]
fn assets_decoding_errors() {
    let decode = VersionedAssets::decode;
    assert_eq!(decode(&[]), Err(DecodeError::UnexpectedEnd));
    assert_eq!(VersionedAssets::decode_as(&[], Version::V1), Err(DecodeError::UnexpectedEnd));
    assert_eq!(decode(&[0x03, 0x00]), Err(DecodeError::UnknownTag));
    assert_eq!(VersionedAssets::decode_as(&[0x03], Version::V1), Err(DecodeError::UnknownTag));
    assert_eq!(decode(&[0x01]), Err(DecodeError::UnexpectedEnd));
    // the count says one entry and none follows
    assert_eq!(decode(&[0x01, 0x04]), Err(DecodeError::UnexpectedEnd));
    // the count in a longer form than needed
    assert_eq!(decode(&[0x01, 0x01, 0x00]), Err(DecodeError::NonCanonical));
    // more entries than can be counted
    assert_eq!(
        decode(&[0x01, 0x07, 0x00, 0x00, 0x00, 0x00, 0x01, 0x00]),
        Err(DecodeError::OutOfRange)
    );
    // an abstract asset identity
    assert_eq!(decode(&[0x01, 0x04, 0x01, 0x00, 0x00, 0x00]), Err(DecodeError::UnknownTag));
    // a location with nine junctions
    assert_eq!(decode(&[0x01, 0x04, 0x00, 0x00, 0x09]), Err(DecodeError::TooManyJunctions));
    // an unknown fungibility, an unknown instance
    assert_eq!(decode(&[0x01, 0x04, 0x00, 0x00, 0x00, 0x02]), Err(DecodeError::UnknownTag));
    assert_eq!(decode(&[0x01, 0x04, 0x00, 0x00, 0x00, 0x01, 0x02]), Err(DecodeError::UnknownTag));
    // the amount is missing, or cut short
    assert_eq!(decode(&[0x01, 0x04, 0x00, 0x00, 0x00, 0x00]), Err(DecodeError::UnexpectedEnd));
    assert_eq!(decode(&[0x01, 0x04, 0x00, 0x00, 0x00, 0x00, 0x07, 0x00]), Err(DecodeError::UnexpectedEnd));
    assert_eq!(decode(&[0x01, 0x04, 0x00, 0x00, 0x00]), Err(DecodeError::UnexpectedEnd));
    // the second of two entries fails
    assert_eq!(
        decode(&[0x01, 0x08, 0x00, 0x00, 0x00, 0x00, 0x04, 0x05]),
        Err(DecodeError::UnknownTag)
    );
    // legacy: an unknown kind of asset, a bad location, a missing amount
    assert_eq!(decode(&[0x00, 0x04, 0x00]), Err(DecodeError::UnknownTag));
    assert_eq!(decode(&[0x00, 0x04]), Err(DecodeError::UnexpectedEnd));
    assert_eq!(decode(&[0x00, 0x04, 0x0a, 0x00]), Err(DecodeError::UnknownTag));
    assert_eq!(decode(&[0x00, 0x04, 0x0a, 0x01, 0x01, 0x04]), Err(DecodeError::UnexpectedEnd));
    assert_eq!(
        decode(&[0x00, 0x04, 0x0a, 0x01, 0x01, 0x04, 0x01, 0x00]),
        Err(DecodeError::NonCanonical)
    );
}

#[test]
fn assets_decoding_refuses_trailing_bytes() {
    let mut bytes = native(5).encode();
    bytes.push(0x00);
    assert_eq!(VersionedAssets::decode(&bytes), Err(DecodeError::TrailingBytes));
    assert_eq!(VersionedAssets::decode_as(&bytes, Version::V1), Err(DecodeError::TrailingBytes));
    let mut old = legacy().encode();
    old.push(0x0a);
    assert_eq!(VersionedAssets::decode(&old), Err(DecodeError::TrailingBytes));
}
