//! Assets of the legacy format.
//!
//! The legacy format names an asset and its amount in one variant. The one
//! kind modelled here is an amount of the asset that a legacy location
//! issues.

use vstd::prelude::*;
use crate::asset::MAX_BUNDLE_LEN;
use crate::compact::{
    compact_encoding, compact_parse, encode_compact, lemma_compact_parse_encoding,
    lemma_compact_parse_sound, read_compact,
};
use crate::error::DecodeError;
use crate::location::{
    legacy_location_encoding, legacy_location_parse, lemma_legacy_location_parse_encoding,
    lemma_legacy_location_parse_sound, read_legacy_location, LegacyLocation, LegacyLocationView,
};

verus! {

/// The variant tag of an amount of a concrete asset.
pub const CONCRETE_FUNGIBLE_TAG: u8 = 10;

/// One entry of a legacy bundle.
#[derive(Clone, Copy, Debug, PartialEq, Eq)]
pub enum LegacyAsset {
    /// The given amount of the asset that the given location issues.
    ConcreteFungible { id: LegacyLocation, amount: u128 },
}

/// An ordered sequence of legacy entries, few enough for the format to
/// count.
#[derive(Debug, PartialEq, Eq)]
pub struct LegacyAssetBundle {
    items: Vec<LegacyAsset>,
}

/// What a legacy entry is.
pub enum LegacyAssetView {
    ConcreteFungible { id: LegacyLocationView, amount: u128 },
}

impl LegacyAssetView {
    pub open spec fn wf(self) -> bool {
        match self {
            LegacyAssetView::ConcreteFungible { id, amount } => id.wf(),
        }
    }
}

/// A legacy bundle is well formed when each entry is and their count can
/// be written down.
pub open spec fn legacy_bundle_wf(s: Seq<LegacyAssetView>) -> bool {
    &&& s.len() <= MAX_BUNDLE_LEN
    &&& forall|i: int| 0 <= i < s.len() ==> (#[trigger] s[i]).wf()
}

impl View for LegacyAsset {
    type V = LegacyAssetView;

    open spec fn view(&self) -> LegacyAssetView {
        match *self {
            LegacyAsset::ConcreteFungible { id, amount } => LegacyAssetView::ConcreteFungible {
                id: id@,
                amount,
            },
        }
    }
}

/// The views of a sequence of legacy entries, in order.
pub open spec fn legacy_asset_views(s: Seq<LegacyAsset>) -> Seq<LegacyAssetView> {
    Seq::new(s.len(), |i: int| s[i]@)
}

impl View for LegacyAssetBundle {
    type V = Seq<LegacyAssetView>;

    closed spec fn view(&self) -> Seq<LegacyAssetView> {
        legacy_asset_views(self.items@)
    }
}

/// The encoding of a legacy entry: the variant tag, the location, the
/// amount as a compact integer.
pub open spec fn legacy_asset_encoding(a: LegacyAssetView) -> Seq<u8> {
    match a {
        LegacyAssetView::ConcreteFungible { id, amount } => seq![CONCRETE_FUNGIBLE_TAG]
            + legacy_location_encoding(id) + compact_encoding(amount as nat),
    }
}

/// What the decoder makes of the front of `b` as a legacy entry.
#[verifier::opaque]
pub open spec fn legacy_asset_parse(b: Seq<u8>) -> Result<(LegacyAssetView, nat), DecodeError> {
    if b.len() == 0 {
        Err(DecodeError::UnexpectedEnd)
    } else if b[0] != CONCRETE_FUNGIBLE_TAG {
        Err(DecodeError::UnknownTag)
    } else {
        match legacy_location_parse(b.skip(1)) {
            Err(e) => Err(e),
            Ok((id, n)) => match compact_parse(b.skip((1 + n) as int)) {
                Err(e) => Err(e),
                Ok((v, m)) => Ok(
                    (LegacyAssetView::ConcreteFungible { id, amount: v as u128 }, 1 + n + m),
                ),
            },
        }
    }
}

/// The encodings of a sequence of legacy entries, one after the other.
pub open spec fn legacy_assets_encoding(s: Seq<LegacyAssetView>) -> Seq<u8>
    decreases s.len(),
{
    if s.len() == 0 {
        Seq::empty()
    } else {
        legacy_assets_encoding(s.drop_last()) + legacy_asset_encoding(s.last())
    }
}

/// What the decoder makes of `count` legacy entries at the front of `b`.
pub open spec fn legacy_assets_parse(b: Seq<u8>, count: nat) -> Result<
    (Seq<LegacyAssetView>, nat),
    DecodeError,
>
    decreases count,
{
    if count == 0 {
        Ok((Seq::empty(), 0))
    } else {
        match legacy_assets_parse(b, (count - 1) as nat) {
            Err(e) => Err(e),
            Ok((front, n)) => match legacy_asset_parse(b.skip(n as int)) {
                Err(e) => Err(e),
                Ok((a, m)) => Ok((front.push(a), n + m)),
            },
        }
    }
}

/// The encoding of a legacy bundle: the number of entries as a compact
/// integer, then the entries.
pub open spec fn legacy_bundle_encoding(s: Seq<LegacyAssetView>) -> Seq<u8> {
    compact_encoding(s.len()) + legacy_assets_encoding(s)
}

/// What the decoder makes of the front of `b` as a legacy bundle.
pub open spec fn legacy_bundle_parse(b: Seq<u8>) -> Result<
    (Seq<LegacyAssetView>, nat),
    DecodeError,
> {
    match compact_parse(b) {
        Err(e) => Err(e),
        Ok((count, n)) => if count > MAX_BUNDLE_LEN {
            Err(DecodeError::OutOfRange)
        } else {
            match legacy_assets_parse(b.skip(n as int), count) {
                Err(e) => Err(e),
                Ok((s, m)) => Ok((s, n + m)),
            }
        },
    }
}

/// Decoding an encoded legacy entry, whatever follows it, gives it back.
pub proof fn lemma_legacy_asset_parse_encoding(a: LegacyAssetView, rest: Seq<u8>)
    requires
        a.wf(),
    ensures
        legacy_asset_parse(legacy_asset_encoding(a) + rest) == Ok::<
            (LegacyAssetView, nat),
            DecodeError,
        >((a, legacy_asset_encoding(a).len())),
{
    reveal(legacy_asset_parse);
    let b = legacy_asset_encoding(a) + rest;
    match a {
        LegacyAssetView::ConcreteFungible { id, amount } => {
            let place = legacy_location_encoding(id);
            let much = compact_encoding(amount as nat);
            assert(b[0] == CONCRETE_FUNGIBLE_TAG);
            lemma_legacy_location_parse_encoding(id, much + rest);
            lemma_compact_parse_encoding(amount as nat, rest);
            assert(b.skip(1) =~= place + (much + rest));
            assert(b.skip((1 + place.len()) as int) =~= much + rest);
        },
    }
}

/// Whatever the decoder accepts as a legacy entry is the encoding of the
/// entry it reports.
pub proof fn lemma_legacy_asset_parse_sound(b: Seq<u8>)
    ensures
        match legacy_asset_parse(b) {
            Ok((a, n)) => n <= b.len() && a.wf() && b.subrange(0, n as int)
                == legacy_asset_encoding(a),
            Err(_) => true,
        },
{
    reveal(legacy_asset_parse);
    if b.len() > 0 && b[0] == CONCRETE_FUNGIBLE_TAG {
        let tail = b.skip(1);
        lemma_legacy_location_parse_sound(tail);
        match legacy_location_parse(tail) {
            Err(_) => {},
            Ok((id, n)) => {
                let last = b.skip((1 + n) as int);
                lemma_compact_parse_sound(last);
                match compact_parse(last) {
                    Err(_) => {},
                    Ok((v, m)) => {
                        assert(b.subrange(0, (1 + n + m) as int) =~= seq![b[0]] + tail.subrange(
                            0,
                            n as int,
                        ) + last.subrange(0, m as int));
                    },
                }
            },
        }
    }
}

/// Once the decoder has failed on some number of entries it fails the same
/// way on any larger number.
pub proof fn lemma_legacy_assets_parse_error(b: Seq<u8>, failed: nat, count: nat)
    requires
        failed <= count,
        legacy_assets_parse(b, failed) is Err,
    ensures
        legacy_assets_parse(b, count) == legacy_assets_parse(b, failed),
    decreases count,
{
    if failed < count {
        lemma_legacy_assets_parse_error(b, failed, (count - 1) as nat);
    }
}

/// Decoding the encodings of a sequence of legacy entries, whatever
/// follows them, gives the sequence back.
pub proof fn lemma_legacy_assets_parse_encoding(s: Seq<LegacyAssetView>, rest: Seq<u8>)
    requires
        forall|i: int| 0 <= i < s.len() ==> (#[trigger] s[i]).wf(),
    ensures
        legacy_assets_parse(legacy_assets_encoding(s) + rest, s.len()) == Ok::<
            (Seq<LegacyAssetView>, nat),
            DecodeError,
        >((s, legacy_assets_encoding(s).len())),
    decreases s.len(),
{
    if s.len() > 0 {
        let front = s.drop_last();
        let last = legacy_asset_encoding(s.last());
        let b = legacy_assets_encoding(s) + rest;
        let n = legacy_assets_encoding(front).len();
        assert(b =~= legacy_assets_encoding(front) + (last + rest));
        lemma_legacy_assets_parse_encoding(front, last + rest);
        lemma_legacy_asset_parse_encoding(s.last(), rest);
        assert(b.skip(n as int) =~= last + rest);
        assert(front.push(s.last()) =~= s);
    } else {
        assert(s =~= Seq::<LegacyAssetView>::empty());
    }
}

/// Whatever the decoder accepts as `count` legacy entries is the encoding
/// of the entries it reports.
pub proof fn lemma_legacy_assets_parse_sound(b: Seq<u8>, count: nat)
    ensures
        match legacy_assets_parse(b, count) {
            Ok((s, n)) => {
                &&& n <= b.len()
                &&& s.len() == count
                &&& forall|i: int| 0 <= i < s.len() ==> (#[trigger] s[i]).wf()
                &&& b.subrange(0, n as int) == legacy_assets_encoding(s)
            },
            Err(_) => true,
        },
    decreases count,
{
    if count == 0 {
        assert(b.subrange(0, 0) =~= Seq::<u8>::empty());
    } else {
        lemma_legacy_assets_parse_sound(b, (count - 1) as nat);
        match legacy_assets_parse(b, (count - 1) as nat) {
            Err(_) => {},
            Ok((front, n)) => {
                let tail = b.skip(n as int);
                lemma_legacy_asset_parse_sound(tail);
                match legacy_asset_parse(tail) {
                    Err(_) => {},
                    Ok((a, m)) => {
                        let s = front.push(a);
                        assert(s.drop_last() =~= front);
                        assert(s.last() == a);
                        assert(b.subrange(0, (n + m) as int) =~= b.subrange(0, n as int)
                            + tail.subrange(0, m as int));
                    },
                }
            },
        }
    }
}

/// Decoding an encoded legacy bundle, whatever follows it, gives the
/// bundle back.
pub proof fn lemma_legacy_bundle_parse_encoding(s: Seq<LegacyAssetView>, rest: Seq<u8>)
    requires
        legacy_bundle_wf(s),
    ensures
        legacy_bundle_parse(legacy_bundle_encoding(s) + rest) == Ok::<
            (Seq<LegacyAssetView>, nat),
            DecodeError,
        >((s, legacy_bundle_encoding(s).len())),
{
    let count = compact_encoding(s.len());
    let body = legacy_assets_encoding(s);
    let b = legacy_bundle_encoding(s) + rest;
    assert(b =~= count + (body + rest));
    lemma_compact_parse_encoding(s.len(), body + rest);
    lemma_legacy_assets_parse_encoding(s, rest);
    assert(b.skip(count.len() as int) =~= body + rest);
}

/// Whatever the decoder accepts as a legacy bundle is the encoding of the
/// bundle it reports.
pub proof fn lemma_legacy_bundle_parse_sound(b: Seq<u8>)
    ensures
        match legacy_bundle_parse(b) {
            Ok((s, n)) => n <= b.len() && legacy_bundle_wf(s) && b.subrange(0, n as int)
                == legacy_bundle_encoding(s),
            Err(_) => true,
        },
{
    lemma_compact_parse_sound(b);
    match compact_parse(b) {
        Err(_) => {},
        Ok((count, n)) => {
            let tail = b.skip(n as int);
            lemma_legacy_assets_parse_sound(tail, count);
            match legacy_assets_parse(tail, count) {
                Err(_) => {},
                Ok((s, m)) => {
                    assert(b.subrange(0, (n + m) as int) =~= b.subrange(0, n as int)
                        + tail.subrange(0, m as int));
                },
            }
        },
    }
}

impl LegacyAsset {
    /// Appends the encoding of this entry to `out`.
    pub fn encode_to(&self, out: &mut Vec<u8>)
        ensures
            final(out)@ == old(out)@ + legacy_asset_encoding(self@),
            self@.wf(),
    {
        match self {
            LegacyAsset::ConcreteFungible { id, amount } => {
                out.push(CONCRETE_FUNGIBLE_TAG);
                id.encode_to(out);
                let ghost mid = out@;
                encode_compact(*amount, out);
                proof {
                    let place = legacy_location_encoding(id@);
                    let much = compact_encoding(*amount as nat);
                    assert(mid + much =~= old(out)@ + (seq![CONCRETE_FUNGIBLE_TAG] + place
                        + much));
                }
            },
        }
    }
}

/// Reads one legacy entry that starts at `start`; gives it and the position
/// just after it.
pub(crate) fn read_legacy_asset(bytes: &[u8], start: usize) -> (r: Result<
    (LegacyAsset, usize),
    DecodeError,
>)
    requires
        start <= bytes.len(),
    ensures
        match legacy_asset_parse(bytes@.skip(start as int)) {
            Ok((a, n)) => match r {
                Ok((x, end)) => x@ == a && end == start + n && end <= bytes.len(),
                Err(_) => false,
            },
            Err(e) => r == Err::<(LegacyAsset, usize), DecodeError>(e),
        },
{
    reveal(legacy_asset_parse);
    let ghost b = bytes@.skip(start as int);
    if start >= bytes.len() {
        return Err(DecodeError::UnexpectedEnd);
    }
    assert(b[0] == bytes@[start as int]);
    if bytes[start] != CONCRETE_FUNGIBLE_TAG {
        return Err(DecodeError::UnknownTag);
    }
    proof {
        assert(b.skip(1) =~= bytes@.skip(start + 1));
    }
    match read_legacy_location(bytes, start + 1) {
        Err(e) => Err(e),
        Ok((id, mid)) => {
            proof {
                assert(b.skip(mid - start) =~= bytes@.skip(mid as int));
            }
            match read_compact(bytes, mid) {
                Err(e) => Err(e),
                Ok((amount, end)) => Ok((LegacyAsset::ConcreteFungible { id, amount }, end)),
            }
        },
    }
}

impl Clone for LegacyAssetBundle {
    fn clone(&self) -> (bundle: LegacyAssetBundle)
        ensures
            bundle@ == self@,
    {
        proof {
            use_type_invariant(self);
        }
        let mut items: Vec<LegacyAsset> = Vec::new();
        let mut i: usize = 0;
        while i < self.items.len()
            invariant
                i <= self.items.len(),
                items@ == self.items@.take(i as int),
            decreases self.items.len() - i,
        {
            items.push(self.items[i]);
            proof {
                assert(items@ =~= self.items@.take(i + 1));
            }
            i = i + 1;
        }
        proof {
            assert(self.items@.take(self.items.len() as int) =~= self.items@);
        }
        LegacyAssetBundle { items }
    }
}

impl LegacyAssetBundle {
    #[verifier::type_invariant]
    spec fn countable(self) -> bool {
        self.items.len() <= MAX_BUNDLE_LEN
    }

    /// The bundle of the given entries, in their order, unless they are too
    /// many for the format to count.
    pub fn new(items: Vec<LegacyAsset>) -> (r: Option<LegacyAssetBundle>)
        ensures
            match r {
                Some(bundle) => items.len() <= MAX_BUNDLE_LEN && bundle@ == legacy_asset_views(
                    items@,
                ),
                None => items.len() > MAX_BUNDLE_LEN,
            },
    {
        if items.len() > MAX_BUNDLE_LEN {
            None
        } else {
            Some(LegacyAssetBundle { items })
        }
    }

    /// The number of entries.
    pub fn len(&self) -> (n: usize)
        ensures
            n == self@.len(),
            n <= MAX_BUNDLE_LEN,
    {
        proof {
            use_type_invariant(self);
        }
        self.items.len()
    }

    /// The entry at the given position, if the bundle has one there.
    pub fn get(&self, index: usize) -> (r: Option<LegacyAsset>)
        ensures
            match r {
                Some(a) => index < self@.len() && a@ == self@[index as int],
                None => index >= self@.len(),
            },
    {
        if index < self.items.len() {
            Some(self.items[index])
        } else {
            None
        }
    }

    /// Appends the encoding of this bundle to `out`.
    pub fn encode_to(&self, out: &mut Vec<u8>)
        ensures
            final(out)@ == old(out)@ + legacy_bundle_encoding(self@),
            legacy_bundle_wf(self@),
    {
        proof {
            use_type_invariant(self);
        }
        let count: usize = self.items.len();
        let ghost views = legacy_asset_views(self.items@);
        let ghost head = compact_encoding(count as nat);
        encode_compact(count as u128, out);
        let mut i: usize = 0;
        proof {
            assert(views.take(0) =~= Seq::<LegacyAssetView>::empty());
            assert(out@ =~= old(out)@ + head + legacy_assets_encoding(views.take(0)));
        }
        while i < count
            invariant
                i <= count,
                count == self.items.len(),
                views == legacy_asset_views(self.items@),
                out@ == old(out)@ + head + legacy_assets_encoding(views.take(i as int)),
                forall|k: int| 0 <= k < i ==> (#[trigger] views[k]).wf(),
            decreases count - i,
        {
            let ghost before = out@;
            self.items[i].encode_to(out);
            proof {
                let upto = views.take(i + 1);
                assert(upto.drop_last() =~= views.take(i as int));
                assert(upto.last() == self.items@[i as int]@);
                assert(before + legacy_asset_encoding(views[i as int]) =~= old(out)@ + head
                    + legacy_assets_encoding(upto));
            }
            i = i + 1;
        }
        proof {
            assert(views.take(count as int) =~= views);
            assert(old(out)@ + head + legacy_assets_encoding(views) =~= old(out)@ + (head
                + legacy_assets_encoding(views)));
        }
    }
}

/// Reads one legacy bundle that starts at `start`; gives it and the
/// position just after it.
pub(crate) fn read_legacy_bundle(bytes: &[u8], start: usize) -> (r: Result<
    (LegacyAssetBundle, usize),
    DecodeError,
>)
    requires
        start <= bytes.len(),
    ensures
        match legacy_bundle_parse(bytes@.skip(start as int)) {
            Ok((s, n)) => match r {
                Ok((x, end)) => x@ == s && end == start + n && end <= bytes.len(),
                Err(_) => false,
            },
            Err(e) => r == Err::<(LegacyAssetBundle, usize), DecodeError>(e),
        },
{
    let ghost b = bytes@.skip(start as int);
    let (count, first) = match read_compact(bytes, start) {
        Err(e) => {
            return Err(e);
        },
        Ok(found) => found,
    };
    if count > 0xffff_ffff {
        return Err(DecodeError::OutOfRange);
    }
    let ghost body = b.skip(first - start);
    let mut items: Vec<LegacyAsset> = Vec::new();
    let mut pos: usize = first;
    let mut i: u128 = 0;
    proof {
        assert(legacy_asset_views(items@) =~= Seq::<LegacyAssetView>::empty());
    }
    while i < count
        invariant
            i <= count <= MAX_BUNDLE_LEN,
            items.len() == i,
            start <= first <= pos <= bytes.len(),
            b == bytes@.skip(start as int),
            body == b.skip(first - start),
            compact_parse(b) == Ok::<(nat, nat), DecodeError>(
                (count as nat, (first - start) as nat),
            ),
            legacy_assets_parse(body, i as nat) == Ok::<
                (Seq<LegacyAssetView>, nat),
                DecodeError,
            >((legacy_asset_views(items@), (pos - first) as nat)),
        decreases count - i,
    {
        proof {
            assert(body.skip(pos - first) =~= bytes@.skip(pos as int));
        }
        match read_legacy_asset(bytes, pos) {
            Err(e) => {
                proof {
                    assert(legacy_assets_parse(body, (i + 1) as nat) == Err::<
                        (Seq<LegacyAssetView>, nat),
                        DecodeError,
                    >(e));
                    lemma_legacy_assets_parse_error(body, (i + 1) as nat, count as nat);
                }
                return Err(e);
            },
            Ok((a, end)) => {
                let ghost before = legacy_asset_views(items@);
                items.push(a);
                proof {
                    assert(legacy_asset_views(items@) =~= before.push(a@));
                }
                pos = end;
                i = i + 1;
            },
        }
    }
    Ok((LegacyAssetBundle { items }, pos))
}

} // verus!
