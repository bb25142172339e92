use parity_scale_codec::{Compact, Encode};
use xcm_teleport::error::DecodeError;
use xcm_teleport::junction::{Junction, NetworkId};
use xcm_teleport::location::{LegacyLocation, Location, VersionedLocation};
use xcm_teleport::version::Version;

fn account(seed: u8) -> [u8; 32] {
    let mut id = [0u8; 32];
    let mut i = 0;
    while i < 32 {
        id[i] = seed.wrapping_add(i as u8);
        i += 1;
    }
    id
}

fn chain(id: u32) -> VersionedLocation {
    VersionedLocation::V0(LegacyLocation::X1(Junction::Parachain(id)))
}

fn nested() -> VersionedLocation {
    let interior = vec![
        Junction::Parachain(2000),
        Junction::AccountId32 { network: NetworkId::Kusama, id: account(7) },
    ];
    VersionedLocation::V1(Location::new(1, interior).expect("two junctions fit"))
}

#[test]
fn version_tags() {
    assert_eq!(Version::V0.tag(), 0);
    assert_eq!(Version::V1.tag(), 1);
    assert_eq!(Version::from_tag(0), Some(Version::V0));
    assert_eq!(Version::from_tag(1), Some(Version::V1));
    assert_eq!(Version::from_tag(2), None);
    assert_eq!(Version::from_tag(255), None);
}

#[test]
fn network_tags() {
    assert_eq!(NetworkId::Any.tag(), 0);
    assert_eq!(NetworkId::Polkadot.tag(), 2);
    assert_eq!(NetworkId::Kusama.tag(), 3);
    assert_eq!(NetworkId::from_tag(0), Some(NetworkId::Any));
    assert_eq!(NetworkId::from_tag(1), None);
    assert_eq!(NetworkId::from_tag(2), Some(NetworkId::Polkadot));
    assert_eq!(NetworkId::from_tag(3), Some(NetworkId::Kusama));
    assert_eq!(NetworkId::from_tag(4), None);
}

#[test]
fn junction_tags_differ_between_versions() {
    let chain = Junction::Parachain(1);
    let who = Junction::AccountId32 { network: NetworkId::Any, id: account(0) };
    assert_eq!(chain.tag(Version::V0), 1);
    assert_eq!(chain.tag(Version::V1), 0);
    assert_eq!(who.tag(Version::V0), 2);
    assert_eq!(who.tag(Version::V1), 1);
}

#[test]
fn legacy_chain_encoding() {
    assert_eq!(chain(1002).encode(), vec![0x00, 0x01, 0x01, 0xa9, 0x0f]);
    assert_eq!(chain(0).encode(), vec![0x00, 0x01, 0x01, 0x00]);
    assert_eq!(chain(u32::MAX).encode(), vec![0x00, 0x01, 0x01, 0x03, 0xff, 0xff, 0xff, 0xff]);
}

#[test]
fn legacy_account_encoding() {
    let id = account(3);
    let who = VersionedLocation::V0(LegacyLocation::X1(Junction::AccountId32 {
        network: NetworkId::Any,
        id,
    }));
    let mut expected = vec![0x00, 0x01, 0x02, 0x00];
    expected.extend_from_slice(&id);
    assert_eq!(who.encode(), expected);
    assert_eq!(who.encode(), (0u8, 1u8, 2u8, 0u8, id).encode());
}

#[test]
fn legacy_chain_agrees_with_the_scale_codec() {
    for id in [0u32, 1, 63, 64, 1000, 1002, 16383, 16384, 1 << 30, u32::MAX] {
        assert_eq!(chain(id).encode(), (0u8, 1u8, 1u8, Compact(id)).encode(), "chain {}", id);
    }
}

#[test]
fn current_location_encoding() {
    let here = VersionedLocation::V1(Location::here());
    assert_eq!(here.encode(), vec![0x01, 0x00, 0x00]);
    let mut expected = vec![0x01, 0x01, 0x02, 0x00, 0x41, 0x1f, 0x01, 0x03];
    expected.extend_from_slice(&account(7));
    assert_eq!(nested().encode(), expected);
}

#[test]
fn encode_to_appends() {
    let mut out = vec![0xee];
    chain(1002).encode_to(&mut out);
    assert_eq!(out, vec![0xee, 0x00, 0x01, 0x01, 0xa9, 0x0f]);
}

#[test]
fn location_round_trip() {
    let who = VersionedLocation::V0(LegacyLocation::X1(Junction::AccountId32 {
        network: NetworkId::Polkadot,
        id: account(200),
    }));
    for value in [chain(0), chain(1002), chain(u32::MAX), who, nested(), VersionedLocation::V1(Location::here())] {
        let bytes = value.encode();
        assert_eq!(VersionedLocation::decode(&bytes), Ok(value.clone()));
        assert_eq!(VersionedLocation::decode_as(&bytes, value.version()), Ok(value));
    }
}

#[test]
fn location_with_eight_junctions_round_trips() {
    let mut interior = Vec::new();
    let mut i = 0;
    while i < 8 {
        interior.push(Junction::Parachain(i * 1000));
        i += 1;
    }
    let value = VersionedLocation::V1(Location::new(255, interior).expect("eight junctions fit"));
    assert_eq!(VersionedLocation::decode(&value.encode()), Ok(value));
}

#[test]
fn location_with_nine_junctions_is_refused() {
    let mut interior = Vec::new();
    let mut i = 0;
    while i < 9 {
        interior.push(Junction::Parachain(i));
        i += 1;
    }
    assert_eq!(Location::new(0, interior), None);
    let mut bytes = vec![0x01, 0x00, 0x09];
    bytes.extend_from_slice(&[0x00; 18]);
    assert_eq!(VersionedLocation::decode(&bytes), Err(DecodeError::TooManyJunctions));
}

#[test]
fn location_accessors() {
    let place = Location::new(
        2,
        vec![Junction::Parachain(5)],
    )
    .expect("one junction fits");
    assert_eq!(place.parents(), 2);
    assert_eq!(place.junctions(), &vec![Junction::Parachain(5)]);
    assert!(!place.is_here());
    assert!(Location::here().is_here());
    assert_eq!(Location::here().parents(), 0);
    assert!(Location::here().junctions().is_empty());
    assert!(!Location::new(1, Vec::new()).expect("no junction fits").is_here());
    assert_eq!(place.clone(), place);
    assert_eq!(LegacyLocation::X1(Junction::Parachain(9)).junction(), Junction::Parachain(9));
    assert_eq!(chain(1).version(), Version::V0);
    assert_eq!(nested().version(), Version::V1);
}

#[test]
fn decoding_with_the_other_version_fails() {
    let legacy = chain(1002).encode();
    assert_eq!(
        VersionedLocation::decode_as(&legacy, Version::V1),
        Err(DecodeError::VersionMismatch)
    );
    let current = nested().encode();
    assert_eq!(
        VersionedLocation::decode_as(&current, Version::V0),
        Err(DecodeError::VersionMismatch)
    );
    // chain 0 in the legacy format; read as the current format the payload
    // would be a location of one junction, and must not be
    let ambiguous = vec![0x00, 0x01, 0x01, 0x00];
    assert_eq!(
        VersionedLocation::decode_as(&ambiguous, Version::V1),
        Err(DecodeError::VersionMismatch)
    );
    assert_eq!(VersionedLocation::decode_as(&ambiguous, Version::V0), Ok(chain(0)));
}

#[test]
fn location_decoding_errors() {
    assert_eq!(VersionedLocation::decode(&[]), Err(DecodeError::UnexpectedEnd));
    assert_eq!(VersionedLocation::decode_as(&[], Version::V0), Err(DecodeError::UnexpectedEnd));
    assert_eq!(VersionedLocation::decode(&[0x02, 0x01]), Err(DecodeError::UnknownTag));
    assert_eq!(
        VersionedLocation::decode_as(&[0x02, 0x01], Version::V0),
        Err(DecodeError::UnknownTag)
    );
    // legacy: no path, a path of two junctions, the parent junction
    assert_eq!(VersionedLocation::decode(&[0x00]), Err(DecodeError::UnexpectedEnd));
    assert_eq!(VersionedLocation::decode(&[0x00, 0x00]), Err(DecodeError::UnknownTag));
    assert_eq!(VersionedLocation::decode(&[0x00, 0x02, 0x01, 0x00]), Err(DecodeError::UnknownTag));
    assert_eq!(VersionedLocation::decode(&[0x00, 0x01, 0x00]), Err(DecodeError::UnknownTag));
    assert_eq!(VersionedLocation::decode(&[0x00, 0x01]), Err(DecodeError::UnexpectedEnd));
    // a chain identifier that is cut short, too long, or too large
    assert_eq!(VersionedLocation::decode(&[0x00, 0x01, 0x01]), Err(DecodeError::UnexpectedEnd));
    assert_eq!(
        VersionedLocation::decode(&[0x00, 0x01, 0x01, 0x01, 0x00]),
        Err(DecodeError::NonCanonical)
    );
    assert_eq!(
        VersionedLocation::decode(&[0x00, 0x01, 0x01, 0x07, 0x00, 0x00, 0x00, 0x00, 0x01]),
        Err(DecodeError::OutOfRange)
    );
    // an account on a named network, and one that is cut short
    let mut named = vec![0x00, 0x01, 0x02, 0x01];
    named.extend_from_slice(&[0u8; 32]);
    assert_eq!(VersionedLocation::decode(&named), Err(DecodeError::UnknownTag));
    let mut short = vec![0x00, 0x01, 0x02, 0x00];
    short.extend_from_slice(&[0u8; 31]);
    assert_eq!(VersionedLocation::decode(&short), Err(DecodeError::UnexpectedEnd));
    assert_eq!(VersionedLocation::decode(&[0x00, 0x01, 0x02]), Err(DecodeError::UnexpectedEnd));
    // current: cut short, and a junction missing
    assert_eq!(VersionedLocation::decode(&[0x01, 0x00]), Err(DecodeError::UnexpectedEnd));
    assert_eq!(VersionedLocation::decode(&[0x01, 0x00, 0x01]), Err(DecodeError::UnexpectedEnd));
    assert_eq!(
        VersionedLocation::decode(&[0x01, 0x00, 0x02, 0x00, 0x04]),
        Err(DecodeError::UnexpectedEnd)
    );
    assert_eq!(VersionedLocation::decode(&[0x01, 0x00, 0x01, 0x07]), Err(DecodeError::UnknownTag));
}

#[test]
fn location_decoding_refuses_trailing_bytes() {
    let mut bytes = chain(1002).encode();
    bytes.push(0x00);
    assert_eq!(VersionedLocation::decode(&bytes), Err(DecodeError::TrailingBytes));
    assert_eq!(
        VersionedLocation::decode_as(&bytes, Version::V0),
        Err(DecodeError::TrailingBytes)
    );
    assert_eq!(
        VersionedLocation::decode(&[0x01, 0x00, 0x00, 0x00]),
        Err(DecodeError::TrailingBytes)
    );
}
