//! Asset bundle descriptors: a bundle together with the version of the
//! format it is written in.

use vstd::prelude::*;
use crate::asset::{
    bundle_encoding, bundle_parse, bundle_wf, lemma_bundle_parse_encoding,
    lemma_bundle_parse_sound, read_bundle, AssetBundle, AssetView,
};
use crate::error::DecodeError;
use crate::legacy_asset::{
    legacy_bundle_encoding, legacy_bundle_parse, legacy_bundle_wf,
    lemma_legacy_bundle_parse_encoding, lemma_legacy_bundle_parse_sound, read_legacy_bundle,
    LegacyAssetBundle, LegacyAssetView,
};
use crate::version::{version_of_tag, Version};

verus! {

/// A bundle of assets together with the version of the format it is
/// written in. The tag and the payload cannot disagree: each variant holds
/// the payload type of its own format.
#[derive(Debug, PartialEq, Eq)]
pub enum VersionedAssets {
    V0(LegacyAssetBundle),
    V1(AssetBundle),
}

/// What a versioned bundle is.
pub enum VersionedAssetsView {
    V0(Seq<LegacyAssetView>),
    V1(Seq<AssetView>),
}

impl VersionedAssetsView {
    pub open spec fn wf(self) -> bool {
        match self {
            VersionedAssetsView::V0(s) => legacy_bundle_wf(s),
            VersionedAssetsView::V1(s) => bundle_wf(s),
        }
    }

    /// The version of the format that the bundle is written in.
    pub open spec fn version(self) -> Version {
        match self {
            VersionedAssetsView::V0(_) => Version::V0,
            VersionedAssetsView::V1(_) => Version::V1,
        }
    }

    /// The number of entries.
    pub open spec fn len(self) -> nat {
        match self {
            VersionedAssetsView::V0(s) => s.len(),
            VersionedAssetsView::V1(s) => s.len(),
        }
    }
}

impl View for VersionedAssets {
    type V = VersionedAssetsView;

    open spec fn view(&self) -> VersionedAssetsView {
        match *self {
            VersionedAssets::V0(bundle) => VersionedAssetsView::V0(bundle@),
            VersionedAssets::V1(bundle) => VersionedAssetsView::V1(bundle@),
        }
    }
}

/// The encoding of a versioned bundle: the version tag, then the payload in
/// that version's format.
pub open spec fn versioned_assets_encoding(v: VersionedAssetsView) -> Seq<u8> {
    match v {
        VersionedAssetsView::V0(s) => seq![Version::V0.spec_tag()] + legacy_bundle_encoding(s),
        VersionedAssetsView::V1(s) => seq![Version::V1.spec_tag()] + bundle_encoding(s),
    }
}

/// What the decoder makes of the front of `b` as a versioned bundle.
#[verifier::opaque]
pub open spec fn versioned_assets_parse(b: Seq<u8>) -> Result<
    (VersionedAssetsView, nat),
    DecodeError,
> {
    if b.len() == 0 {
        Err(DecodeError::UnexpectedEnd)
    } else {
        match version_of_tag(b[0]) {
            None => Err(DecodeError::UnknownTag),
            Some(Version::V0) => match legacy_bundle_parse(b.skip(1)) {
                Err(e) => Err(e),
                Ok((s, n)) => Ok((VersionedAssetsView::V0(s), 1 + n)),
            },
            Some(Version::V1) => match bundle_parse(b.skip(1)) {
                Err(e) => Err(e),
                Ok((s, n)) => Ok((VersionedAssetsView::V1(s), 1 + n)),
            },
        }
    }
}

/// What decoding the whole of `b` as a versioned bundle gives: the bundle,
/// if `b` is one and nothing more.
pub open spec fn assets_decoding(b: Seq<u8>) -> Result<VersionedAssetsView, DecodeError> {
    match versioned_assets_parse(b) {
        Err(e) => Err(e),
        Ok((v, n)) => if n < b.len() {
            Err(DecodeError::TrailingBytes)
        } else {
            Ok(v)
        },
    }
}

/// What decoding the whole of `b` gives to a caller who expects the given
/// version: a tag of the other version is refused before the payload is
/// looked at.
pub open spec fn assets_decoding_as(b: Seq<u8>, version: Version) -> Result<
    VersionedAssetsView,
    DecodeError,
> {
    if b.len() == 0 {
        Err(DecodeError::UnexpectedEnd)
    } else {
        match version_of_tag(b[0]) {
            None => Err(DecodeError::UnknownTag),
            Some(found) => if found != version {
                Err(DecodeError::VersionMismatch)
            } else {
                assets_decoding(b)
            },
        }
    }
}

/// Decoding an encoded versioned bundle, whatever follows it, gives the
/// bundle back.
pub proof fn lemma_versioned_assets_parse_encoding(v: VersionedAssetsView, rest: Seq<u8>)
    requires
        v.wf(),
    ensures
        versioned_assets_parse(versioned_assets_encoding(v) + rest) == Ok::<
            (VersionedAssetsView, nat),
            DecodeError,
        >((v, versioned_assets_encoding(v).len())),
{
    reveal(versioned_assets_parse);
    let b = versioned_assets_encoding(v) + rest;
    match v {
        VersionedAssetsView::V0(s) => {
            lemma_legacy_bundle_parse_encoding(s, rest);
            assert(b[0] == 0);
            assert(b.skip(1) =~= legacy_bundle_encoding(s) + rest);
        },
        VersionedAssetsView::V1(s) => {
            lemma_bundle_parse_encoding(s, rest);
            assert(b[0] == 1);
            assert(b.skip(1) =~= bundle_encoding(s) + rest);
        },
    }
}

/// Whatever the decoder accepts as a versioned bundle is the encoding of
/// the bundle it reports.
pub proof fn lemma_versioned_assets_parse_sound(b: Seq<u8>)
    ensures
        match versioned_assets_parse(b) {
            Ok((v, n)) => n <= b.len() && v.wf() && b.subrange(0, n as int)
                == versioned_assets_encoding(v),
            Err(_) => true,
        },
{
    reveal(versioned_assets_parse);
    if b.len() > 0 {
        let tail = b.skip(1);
        lemma_legacy_bundle_parse_sound(tail);
        lemma_bundle_parse_sound(tail);
        match versioned_assets_parse(b) {
            Err(_) => {},
            Ok((v, n)) => {
                let m = (n - 1) as nat;
                assert(b.subrange(0, n as int) =~= seq![b[0]] + tail.subrange(0, m as int));
            },
        }
    }
}

/// Encoding a bundle and decoding the bytes gives the bundle back, to a
/// caller who expects no particular version and to one who expects the
/// version it was written in.
pub proof fn lemma_assets_round_trip(v: VersionedAssetsView)
    requires
        v.wf(),
    ensures
        assets_decoding(versioned_assets_encoding(v)) == Ok::<VersionedAssetsView, DecodeError>(
            v,
        ),
        assets_decoding_as(versioned_assets_encoding(v), v.version()) == Ok::<
            VersionedAssetsView,
            DecodeError,
        >(v),
{
    let enc = versioned_assets_encoding(v);
    lemma_versioned_assets_parse_encoding(v, Seq::empty());
    assert(enc + Seq::<u8>::empty() =~= enc);
}

/// Decoding an encoded bundle as the version it was not written in fails
/// with a version mismatch; the payload is never read as the other format.
pub proof fn lemma_assets_version_mismatch(v: VersionedAssetsView, version: Version)
    requires
        version != v.version(),
    ensures
        assets_decoding_as(versioned_assets_encoding(v), version) == Err::<
            VersionedAssetsView,
            DecodeError,
        >(DecodeError::VersionMismatch),
{
}

/// Two well-formed bundles that are written as the same bytes are the same
/// bundle.
pub proof fn lemma_assets_encoding_injective(v: VersionedAssetsView, w: VersionedAssetsView)
    requires
        v.wf(),
        w.wf(),
        versioned_assets_encoding(v) == versioned_assets_encoding(w),
    ensures
        v == w,
{
    lemma_assets_round_trip(v);
    lemma_assets_round_trip(w);
}

/// Only the encoding of a bundle decodes to it: a byte string that decodes
/// is the encoding of what it decodes to.
pub proof fn lemma_assets_decoding_sound(b: Seq<u8>)
    ensures
        match assets_decoding(b) {
            Ok(v) => v.wf() && b == versioned_assets_encoding(v),
            Err(_) => true,
        },
{
    lemma_versioned_assets_parse_sound(b);
    match assets_decoding(b) {
        Ok(v) => {
            assert(b.subrange(0, b.len() as int) =~= b);
        },
        Err(_) => {},
    }
}

impl Clone for VersionedAssets {
    fn clone(&self) -> (v: VersionedAssets)
        ensures
            v@ == self@,
    {
        match self {
            VersionedAssets::V0(bundle) => VersionedAssets::V0(bundle.clone()),
            VersionedAssets::V1(bundle) => VersionedAssets::V1(bundle.clone()),
        }
    }
}

impl VersionedAssets {
    /// The version of the format that this bundle is written in.
    pub fn version(&self) -> (v: Version)
        ensures
            v == self@.version(),
    {
        match self {
            VersionedAssets::V0(_) => Version::V0,
            VersionedAssets::V1(_) => Version::V1,
        }
    }

    /// The number of entries.
    pub fn len(&self) -> (n: usize)
        ensures
            n == self@.len(),
    {
        match self {
            VersionedAssets::V0(bundle) => bundle.len(),
            VersionedAssets::V1(bundle) => bundle.len(),
        }
    }

    /// Appends the encoding of this bundle to `out`.
    pub fn encode_to(&self, out: &mut Vec<u8>)
        ensures
            final(out)@ == old(out)@ + versioned_assets_encoding(self@),
            self@.wf(),
    {
        match self {
            VersionedAssets::V0(bundle) => {
                out.push(0);
                let ghost mid = out@;
                bundle.encode_to(out);
                proof {
                    let body = legacy_bundle_encoding(bundle@);
                    assert(mid + body =~= old(out)@ + (seq![0u8] + body));
                }
            },
            VersionedAssets::V1(bundle) => {
                out.push(1);
                let ghost mid = out@;
                bundle.encode_to(out);
                proof {
                    let body = bundle_encoding(bundle@);
                    assert(mid + body =~= old(out)@ + (seq![1u8] + body));
                }
            },
        }
    }

    /// The encoding of this bundle.
    pub fn encode(&self) -> (bytes: Vec<u8>)
        ensures
            bytes@ == versioned_assets_encoding(self@),
            self@.wf(),
    {
        let mut out: Vec<u8> = Vec::new();
        self.encode_to(&mut out);
        proof {
            assert(Seq::<u8>::empty() + versioned_assets_encoding(self@)
                =~= versioned_assets_encoding(self@));
        }
        out
    }

    /// Decodes `bytes` as one versioned bundle and nothing more.
    pub fn decode(bytes: &[u8]) -> (r: Result<VersionedAssets, DecodeError>)
        ensures
            match assets_decoding(bytes@) {
                Ok(v) => match r {
                    Ok(x) => x@ == v && v.wf() && bytes@ == versioned_assets_encoding(v),
                    Err(_) => false,
                },
                Err(e) => r == Err::<VersionedAssets, DecodeError>(e),
            },
    {
        proof {
            lemma_assets_decoding_sound(bytes@);
            assert(bytes@.skip(0) =~= bytes@);
        }
        match read_versioned_assets(bytes, 0) {
            Err(e) => Err(e),
            Ok((x, end)) => {
                if end < bytes.len() {
                    Err(DecodeError::TrailingBytes)
                } else {
                    Ok(x)
                }
            },
        }
    }

    /// Decodes `bytes` as one bundle written in the given version and
    /// nothing more. A tag of the other version is refused.
    pub fn decode_as(bytes: &[u8], version: Version) -> (r: Result<VersionedAssets, DecodeError>)
        ensures
            match assets_decoding_as(bytes@, version) {
                Ok(v) => match r {
                    Ok(x) => x@ == v && v.wf() && v.version() == version && bytes@
                        == versioned_assets_encoding(v),
                    Err(_) => false,
                },
                Err(e) => r == Err::<VersionedAssets, DecodeError>(e),
            },
    {
        if bytes.len() == 0 {
            return Err(DecodeError::UnexpectedEnd);
        }
        proof {
            reveal(versioned_assets_parse);
        }
        match Version::from_tag(bytes[0]) {
            None => Err(DecodeError::UnknownTag),
            Some(found) => {
                let same = match (found, version) {
                    (Version::V0, Version::V0) => true,
                    (Version::V1, Version::V1) => true,
                    _ => false,
                };
                if same {
                    VersionedAssets::decode(bytes)
                } else {
                    Err(DecodeError::VersionMismatch)
                }
            },
        }
    }
}

/// Reads one versioned bundle that starts at `start`; gives it and the
/// position just after it.
pub(crate) fn read_versioned_assets(bytes: &[u8], start: usize) -> (r: Result<
    (VersionedAssets, usize),
    DecodeError,
>)
    requires
        start <= bytes.len(),
    ensures
        match versioned_assets_parse(bytes@.skip(start as int)) {
            Ok((v, n)) => match r {
                Ok((x, end)) => x@ == v && end == start + n && end <= bytes.len(),
                Err(_) => false,
            },
            Err(e) => r == Err::<(VersionedAssets, usize), DecodeError>(e),
        },
{
    reveal(versioned_assets_parse);
    let ghost b = bytes@.skip(start as int);
    if start >= bytes.len() {
        return Err(DecodeError::UnexpectedEnd);
    }
    assert(b[0] == bytes@[start as int]);
    proof {
        assert(b.skip(1) =~= bytes@.skip(start + 1));
    }
    match Version::from_tag(bytes[start]) {
        None => Err(DecodeError::UnknownTag),
        Some(Version::V0) => match read_legacy_bundle(bytes, start + 1) {
            Err(e) => Err(e),
            Ok((bundle, end)) => Ok((VersionedAssets::V0(bundle), end)),
        },
        Some(Version::V1) => match read_bundle(bytes, start + 1) {
            Err(e) => Err(e),
            Ok((bundle, end)) => Ok((VersionedAssets::V1(bundle), end)),
        },
    }
}

} // verus!
