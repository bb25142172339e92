//! Assets of the current format: what is moved, and how much of it.
//!
//! An asset entry names an asset by the location that issues it and says
//! either how much of it is meant (a fungible amount) or which instance of
//! it (a non-fungible one). A bundle is an ordered sequence of entries.

use vstd::prelude::*;
use crate::compact::{
    compact_encoding, compact_parse, encode_compact, lemma_compact_parse_encoding,
    lemma_compact_parse_sound, read_compact,
};
use crate::error::DecodeError;
use crate::location::{
    lemma_location_parse_encoding, lemma_location_parse_sound, location_encoding, location_parse,
    read_location, Location, LocationView,
};

verus! {

/// The largest number of entries whose count the format can write down.
pub const MAX_BUNDLE_LEN: usize = 0xffff_ffff;

/// Which instance of a non-fungible asset is meant.
#[derive(Clone, Copy, Debug, PartialEq, Eq, Structural)]
pub enum AssetInstance {
    /// The asset has one instance only.
    Undefined,
    /// The instance with the given number.
    Index(u128),
}

/// How much, or which, of an asset is meant.
#[derive(Clone, Copy, Debug, PartialEq, Eq, Structural)]
pub enum Fungibility {
    /// The given amount, in the asset's smallest unit.
    Fungible(u128),
    /// The given instance.
    NonFungible(AssetInstance),
}

/// The identity of an asset.
#[derive(Debug, PartialEq, Eq)]
pub enum AssetId {
    /// The asset that the consensus system at the given location issues. The
    /// place itself names the native asset of the chain that reads it.
    Concrete(Location),
}

/// One entry of a bundle.
#[derive(Debug, PartialEq, Eq)]
pub struct Asset {
    pub id: AssetId,
    pub fun: Fungibility,
}

/// An ordered sequence of asset entries, few enough for the format to count.
#[derive(Debug, PartialEq, Eq)]
pub struct AssetBundle {
    items: Vec<Asset>,
}

/// What an asset identity is.
pub enum AssetIdView {
    Concrete(LocationView),
}

/// What an asset entry is.
pub struct AssetView {
    pub id: AssetIdView,
    pub fun: Fungibility,
}

impl AssetIdView {
    pub open spec fn wf(self) -> bool {
        match self {
            AssetIdView::Concrete(l) => l.wf(),
        }
    }
}

impl AssetView {
    pub open spec fn wf(self) -> bool {
        self.id.wf()
    }

    /// The entry for `amount` of the native asset.
    pub open spec fn native(amount: u128) -> AssetView {
        AssetView {
            id: AssetIdView::Concrete(LocationView::here()),
            fun: Fungibility::Fungible(amount),
        }
    }
}

/// A bundle is well formed when each entry is and their count can be
/// written down.
pub open spec fn bundle_wf(s: Seq<AssetView>) -> bool {
    &&& s.len() <= MAX_BUNDLE_LEN
    &&& forall|i: int| 0 <= i < s.len() ==> (#[trigger] s[i]).wf()
}

impl View for AssetId {
    type V = AssetIdView;

    open spec fn view(&self) -> AssetIdView {
        match *self {
            AssetId::Concrete(l) => AssetIdView::Concrete(l@),
        }
    }
}

impl View for Asset {
    type V = AssetView;

    open spec fn view(&self) -> AssetView {
        AssetView { id: self.id@, fun: self.fun }
    }
}

/// The views of a sequence of asset entries, in order.
pub open spec fn asset_views(s: Seq<Asset>) -> Seq<AssetView> {
    Seq::new(s.len(), |i: int| s[i]@)
}

impl View for AssetBundle {
    type V = Seq<AssetView>;

    closed spec fn view(&self) -> Seq<AssetView> {
        asset_views(self.items@)
    }
}

/// The encoding of an asset instance.
pub open spec fn instance_encoding(i: AssetInstance) -> Seq<u8> {
    match i {
        AssetInstance::Undefined => seq![0u8],
        AssetInstance::Index(n) => seq![1u8] + compact_encoding(n as nat),
    }
}

/// What the decoder makes of the front of `b` as an asset instance.
pub open spec fn instance_parse(b: Seq<u8>) -> Result<(AssetInstance, nat), DecodeError> {
    if b.len() == 0 {
        Err(DecodeError::UnexpectedEnd)
    } else if b[0] == 0 {
        Ok((AssetInstance::Undefined, 1))
    } else if b[0] == 1 {
        match compact_parse(b.skip(1)) {
            Err(e) => Err(e),
            Ok((v, n)) => Ok((AssetInstance::Index(v as u128), 1 + n)),
        }
    } else {
        Err(DecodeError::UnknownTag)
    }
}

/// The encoding of a fungibility.
pub open spec fn fungibility_encoding(f: Fungibility) -> Seq<u8> {
    match f {
        Fungibility::Fungible(amount) => seq![0u8] + compact_encoding(amount as nat),
        Fungibility::NonFungible(i) => seq![1u8] + instance_encoding(i),
    }
}

/// What the decoder makes of the front of `b` as a fungibility.
#[verifier::opaque]
pub open spec fn fungibility_parse(b: Seq<u8>) -> Result<(Fungibility, nat), DecodeError> {
    if b.len() == 0 {
        Err(DecodeError::UnexpectedEnd)
    } else if b[0] == 0 {
        match compact_parse(b.skip(1)) {
            Err(e) => Err(e),
            Ok((v, n)) => Ok((Fungibility::Fungible(v as u128), 1 + n)),
        }
    } else if b[0] == 1 {
        match instance_parse(b.skip(1)) {
            Err(e) => Err(e),
            Ok((i, n)) => Ok((Fungibility::NonFungible(i), 1 + n)),
        }
    } else {
        Err(DecodeError::UnknownTag)
    }
}

/// The encoding of an asset identity.
pub open spec fn asset_id_encoding(id: AssetIdView) -> Seq<u8> {
    match id {
        AssetIdView::Concrete(l) => seq![0u8] + location_encoding(l),
    }
}

/// What the decoder makes of the front of `b` as an asset identity.
#[verifier::opaque]
pub open spec fn asset_id_parse(b: Seq<u8>) -> Result<(AssetIdView, nat), DecodeError> {
    if b.len() == 0 {
        Err(DecodeError::UnexpectedEnd)
    } else if b[0] != 0 {
        Err(DecodeError::UnknownTag)
    } else {
        match location_parse(b.skip(1)) {
            Err(e) => Err(e),
            Ok((l, n)) => Ok((AssetIdView::Concrete(l), 1 + n)),
        }
    }
}

/// The encoding of an asset entry: its identity, then its fungibility.
pub open spec fn asset_encoding(a: AssetView) -> Seq<u8> {
    asset_id_encoding(a.id) + fungibility_encoding(a.fun)
}

/// What the decoder makes of the front of `b` as an asset entry.
#[verifier::opaque]
pub open spec fn asset_parse(b: Seq<u8>) -> Result<(AssetView, nat), DecodeError> {
    match asset_id_parse(b) {
        Err(e) => Err(e),
        Ok((id, n)) => match fungibility_parse(b.skip(n as int)) {
            Err(e) => Err(e),
            Ok((fun, m)) => Ok((AssetView { id, fun }, n + m)),
        },
    }
}

/// The encodings of a sequence of asset entries, one after the other.
pub open spec fn assets_encoding(s: Seq<AssetView>) -> Seq<u8>
    decreases s.len(),
{
    if s.len() == 0 {
        Seq::empty()
    } else {
        assets_encoding(s.drop_last()) + asset_encoding(s.last())
    }
}

/// What the decoder makes of `count` asset entries at the front of `b`.
pub open spec fn assets_parse(b: Seq<u8>, count: nat) -> Result<(Seq<AssetView>, nat), DecodeError>
    decreases count,
{
    if count == 0 {
        Ok((Seq::empty(), 0))
    } else {
        match assets_parse(b, (count - 1) as nat) {
            Err(e) => Err(e),
            Ok((front, n)) => match asset_parse(b.skip(n as int)) {
                Err(e) => Err(e),
                Ok((a, m)) => Ok((front.push(a), n + m)),
            },
        }
    }
}

/// The encoding of a bundle: the number of entries as a compact integer,
/// then the entries.
pub open spec fn bundle_encoding(s: Seq<AssetView>) -> Seq<u8> {
    compact_encoding(s.len()) + assets_encoding(s)
}

/// What the decoder makes of the front of `b` as a bundle.
pub open spec fn bundle_parse(b: Seq<u8>) -> Result<(Seq<AssetView>, nat), DecodeError> {
    match compact_parse(b) {
        Err(e) => Err(e),
        Ok((count, n)) => if count > MAX_BUNDLE_LEN {
            Err(DecodeError::OutOfRange)
        } else {
            match assets_parse(b.skip(n as int), count) {
                Err(e) => Err(e),
                Ok((s, m)) => Ok((s, n + m)),
            }
        },
    }
}

/// Decoding an encoded instance, whatever follows it, gives it back.
pub proof fn lemma_instance_parse_encoding(i: AssetInstance, rest: Seq<u8>)
    ensures
        instance_parse(instance_encoding(i) + rest) == Ok::<(AssetInstance, nat), DecodeError>(
            (i, instance_encoding(i).len()),
        ),
{
    let b = instance_encoding(i) + rest;
    assert(b[0] == instance_encoding(i)[0]);
    match i {
        AssetInstance::Undefined => {},
        AssetInstance::Index(n) => {
            lemma_compact_parse_encoding(n as nat, rest);
            assert(b.skip(1) =~= compact_encoding(n as nat) + rest);
        },
    }
}

/// Whatever the decoder accepts as an instance is the encoding of the
/// instance it reports.
pub proof fn lemma_instance_parse_sound(b: Seq<u8>)
    ensures
        match instance_parse(b) {
            Ok((i, n)) => n <= b.len() && b.subrange(0, n as int) == instance_encoding(i),
            Err(_) => true,
        },
{
    match instance_parse(b) {
        Err(_) => {},
        Ok((i, n)) => {
            let tail = b.skip(1);
            lemma_compact_parse_sound(tail);
            let m = (n - 1) as nat;
            assert(b.subrange(0, n as int) =~= seq![b[0]] + tail.subrange(0, m as int));
        },
    }
}

/// Decoding an encoded fungibility, whatever follows it, gives it back.
pub proof fn lemma_fungibility_parse_encoding(f: Fungibility, rest: Seq<u8>)
    ensures
        fungibility_parse(fungibility_encoding(f) + rest) == Ok::<(Fungibility, nat), DecodeError>(
            (f, fungibility_encoding(f).len()),
        ),
{
    reveal(fungibility_parse);
    let b = fungibility_encoding(f) + rest;
    assert(b[0] == fungibility_encoding(f)[0]);
    match f {
        Fungibility::Fungible(amount) => {
            lemma_compact_parse_encoding(amount as nat, rest);
            assert(b.skip(1) =~= compact_encoding(amount as nat) + rest);
        },
        Fungibility::NonFungible(i) => {
            lemma_instance_parse_encoding(i, rest);
            assert(b.skip(1) =~= instance_encoding(i) + rest);
        },
    }
}

/// Whatever the decoder accepts as a fungibility is the encoding of the
/// fungibility it reports.
pub proof fn lemma_fungibility_parse_sound(b: Seq<u8>)
    ensures
        match fungibility_parse(b) {
            Ok((f, n)) => n <= b.len() && b.subrange(0, n as int) == fungibility_encoding(f),
            Err(_) => true,
        },
{
    reveal(fungibility_parse);
    match fungibility_parse(b) {
        Err(_) => {},
        Ok((f, n)) => {
            let tail = b.skip(1);
            lemma_compact_parse_sound(tail);
            lemma_instance_parse_sound(tail);
            let m = (n - 1) as nat;
            assert(b.subrange(0, n as int) =~= seq![b[0]] + tail.subrange(0, m as int));
        },
    }
}

/// Decoding an encoded asset identity, whatever follows it, gives it back.
pub proof fn lemma_asset_id_parse_encoding(id: AssetIdView, rest: Seq<u8>)
    requires
        id.wf(),
    ensures
        asset_id_parse(asset_id_encoding(id) + rest) == Ok::<(AssetIdView, nat), DecodeError>(
            (id, asset_id_encoding(id).len()),
        ),
{
    reveal(asset_id_parse);
    let b = asset_id_encoding(id) + rest;
    assert(b[0] == 0);
    match id {
        AssetIdView::Concrete(l) => {
            lemma_location_parse_encoding(l, rest);
            assert(b.skip(1) =~= location_encoding(l) + rest);
        },
    }
}

/// Whatever the decoder accepts as an asset identity is the encoding of the
/// identity it reports.
pub proof fn lemma_asset_id_parse_sound(b: Seq<u8>)
    ensures
        match asset_id_parse(b) {
            Ok((id, n)) => n <= b.len() && id.wf() && b.subrange(0, n as int) == asset_id_encoding(
                id,
            ),
            Err(_) => true,
        },
{
    reveal(asset_id_parse);
    match asset_id_parse(b) {
        Err(_) => {},
        Ok((id, n)) => {
            let tail = b.skip(1);
            lemma_location_parse_sound(tail);
            let m = (n - 1) as nat;
            assert(b.subrange(0, n as int) =~= seq![b[0]] + tail.subrange(0, m as int));
        },
    }
}

/// Decoding an encoded asset entry, whatever follows it, gives it back.
pub proof fn lemma_asset_parse_encoding(a: AssetView, rest: Seq<u8>)
    requires
        a.wf(),
    ensures
        asset_parse(asset_encoding(a) + rest) == Ok::<(AssetView, nat), DecodeError>(
            (a, asset_encoding(a).len()),
        ),
{
    reveal(asset_parse);
    let id = asset_id_encoding(a.id);
    let fun = fungibility_encoding(a.fun);
    let b = asset_encoding(a) + rest;
    assert(b =~= id + (fun + rest));
    lemma_asset_id_parse_encoding(a.id, fun + rest);
    lemma_fungibility_parse_encoding(a.fun, rest);
    assert(b.skip(id.len() as int) =~= fun + rest);
}

/// Whatever the decoder accepts as an asset entry is the encoding of the
/// entry it reports.
pub proof fn lemma_asset_parse_sound(b: Seq<u8>)
    ensures
        match asset_parse(b) {
            Ok((a, n)) => n <= b.len() && a.wf() && b.subrange(0, n as int) == asset_encoding(a),
            Err(_) => true,
        },
{
    reveal(asset_parse);
    lemma_asset_id_parse_sound(b);
    match asset_id_parse(b) {
        Err(_) => {},
        Ok((id, n)) => {
            let tail = b.skip(n as int);
            lemma_fungibility_parse_sound(tail);
            match fungibility_parse(tail) {
                Err(_) => {},
                Ok((fun, m)) => {
                    assert(b.subrange(0, (n + m) as int) =~= b.subrange(0, n as int)
                        + tail.subrange(0, m as int));
                },
            }
        },
    }
}

/// Once the decoder has failed on some number of entries it fails the same
/// way on any larger number.
pub proof fn lemma_assets_parse_error(b: Seq<u8>, failed: nat, count: nat)
    requires
        failed <= count,
        assets_parse(b, failed) is Err,
    ensures
        assets_parse(b, count) == assets_parse(b, failed),
    decreases count,
{
    if failed < count {
        lemma_assets_parse_error(b, failed, (count - 1) as nat);
    }
}

/// Decoding the encodings of a sequence of entries, whatever follows them,
/// gives the sequence back.
pub proof fn lemma_assets_parse_encoding(s: Seq<AssetView>, rest: Seq<u8>)
    requires
        forall|i: int| 0 <= i < s.len() ==> (#[trigger] s[i]).wf(),
    ensures
        assets_parse(assets_encoding(s) + rest, s.len()) == Ok::<
            (Seq<AssetView>, nat),
            DecodeError,
        >((s, assets_encoding(s).len())),
    decreases s.len(),
{
    if s.len() > 0 {
        let front = s.drop_last();
        let last = asset_encoding(s.last());
        let b = assets_encoding(s) + rest;
        let n = assets_encoding(front).len();
        assert(b =~= assets_encoding(front) + (last + rest));
        lemma_assets_parse_encoding(front, last + rest);
        lemma_asset_parse_encoding(s.last(), rest);
        assert(b.skip(n as int) =~= last + rest);
        assert(front.push(s.last()) =~= s);
    } else {
        assert(s =~= Seq::<AssetView>::empty());
    }
}

/// Whatever the decoder accepts as `count` entries is the encoding of the
/// entries it reports.
pub proof fn lemma_assets_parse_sound(b: Seq<u8>, count: nat)
    ensures
        match assets_parse(b, count) {
            Ok((s, n)) => {
                &&& n <= b.len()
                &&& s.len() == count
                &&& forall|i: int| 0 <= i < s.len() ==> (#[trigger] s[i]).wf()
                &&& b.subrange(0, n as int) == assets_encoding(s)
            },
            Err(_) => true,
        },
    decreases count,
{
    if count == 0 {
        assert(b.subrange(0, 0) =~= Seq::<u8>::empty());
    } else {
        lemma_assets_parse_sound(b, (count - 1) as nat);
        match assets_parse(b, (count - 1) as nat) {
            Err(_) => {},
            Ok((front, n)) => {
                let tail = b.skip(n as int);
                lemma_asset_parse_sound(tail);
                match asset_parse(tail) {
                    Err(_) => {},
                    Ok((a, m)) => {
                        let s = front.push(a);
                        assert(s.drop_last() =~= front);
                        assert(s.last() == a);
                        assert(b.subrange(0, (n + m) as int) =~= b.subrange(0, n as int)
                            + tail.subrange(0, m as int));
                    },
                }
            },
        }
    }
}

/// Decoding an encoded bundle, whatever follows it, gives the bundle back.
pub proof fn lemma_bundle_parse_encoding(s: Seq<AssetView>, rest: Seq<u8>)
    requires
        bundle_wf(s),
    ensures
        bundle_parse(bundle_encoding(s) + rest) == Ok::<(Seq<AssetView>, nat), DecodeError>(
            (s, bundle_encoding(s).len()),
        ),
{
    let count = compact_encoding(s.len());
    let body = assets_encoding(s);
    let b = bundle_encoding(s) + rest;
    assert(b =~= count + (body + rest));
    lemma_compact_parse_encoding(s.len(), body + rest);
    lemma_assets_parse_encoding(s, rest);
    assert(b.skip(count.len() as int) =~= body + rest);
}

/// Whatever the decoder accepts as a bundle is the encoding of the bundle
/// it reports.
pub proof fn lemma_bundle_parse_sound(b: Seq<u8>)
    ensures
        match bundle_parse(b) {
            Ok((s, n)) => n <= b.len() && bundle_wf(s) && b.subrange(0, n as int)
                == bundle_encoding(s),
            Err(_) => true,
        },
{
    lemma_compact_parse_sound(b);
    match compact_parse(b) {
        Err(_) => {},
        Ok((count, n)) => {
            let tail = b.skip(n as int);
            lemma_assets_parse_sound(tail, count);
            match assets_parse(tail, count) {
                Err(_) => {},
                Ok((s, m)) => {
                    assert(b.subrange(0, (n + m) as int) =~= b.subrange(0, n as int)
                        + tail.subrange(0, m as int));
                },
            }
        },
    }
}

impl AssetInstance {
    /// Appends the encoding of this instance to `out`.
    pub fn encode_to(&self, out: &mut Vec<u8>)
        ensures
            final(out)@ == old(out)@ + instance_encoding(*self),
    {
        match self {
            AssetInstance::Undefined => {
                out.push(0);
                proof {
                    assert(out@ =~= old(out)@ + seq![0u8]);
                }
            },
            AssetInstance::Index(n) => {
                out.push(1);
                let ghost mid = out@;
                encode_compact(*n, out);
                proof {
                    let body = compact_encoding(*n as nat);
                    assert(mid + body =~= old(out)@ + (seq![1u8] + body));
                }
            },
        }
    }
}

/// Reads one asset instance that starts at `start`; gives the instance and
/// the position just after it.
pub(crate) fn read_instance(bytes: &[u8], start: usize) -> (r: Result<
    (AssetInstance, usize),
    DecodeError,
>)
    requires
        start <= bytes.len(),
    ensures
        match instance_parse(bytes@.skip(start as int)) {
            Ok((i, n)) => r == Ok::<(AssetInstance, usize), DecodeError>(
                (i, (start + n) as usize),
            ) && start + n <= bytes.len(),
            Err(e) => r == Err::<(AssetInstance, usize), DecodeError>(e),
        },
{
    let ghost b = bytes@.skip(start as int);
    if start >= bytes.len() {
        return Err(DecodeError::UnexpectedEnd);
    }
    let tag: u8 = bytes[start];
    assert(b[0] == tag);
    if tag == 0 {
        Ok((AssetInstance::Undefined, start + 1))
    } else if tag == 1 {
        proof {
            assert(b.skip(1) =~= bytes@.skip(start + 1));
        }
        match read_compact(bytes, start + 1) {
            Err(e) => Err(e),
            Ok((v, end)) => Ok((AssetInstance::Index(v), end)),
        }
    } else {
        Err(DecodeError::UnknownTag)
    }
}

impl Fungibility {
    /// Appends the encoding of this fungibility to `out`.
    pub fn encode_to(&self, out: &mut Vec<u8>)
        ensures
            final(out)@ == old(out)@ + fungibility_encoding(*self),
    {
        match self {
            Fungibility::Fungible(amount) => {
                out.push(0);
                let ghost mid = out@;
                encode_compact(*amount, out);
                proof {
                    let body = compact_encoding(*amount as nat);
                    assert(mid + body =~= old(out)@ + (seq![0u8] + body));
                }
            },
            Fungibility::NonFungible(i) => {
                out.push(1);
                let ghost mid = out@;
                i.encode_to(out);
                proof {
                    let body = instance_encoding(*i);
                    assert(mid + body =~= old(out)@ + (seq![1u8] + body));
                }
            },
        }
    }
}

/// Reads one fungibility that starts at `start`; gives it and the position
/// just after it.
pub(crate) fn read_fungibility(bytes: &[u8], start: usize) -> (r: Result<
    (Fungibility, usize),
    DecodeError,
>)
    requires
        start <= bytes.len(),
    ensures
        match fungibility_parse(bytes@.skip(start as int)) {
            Ok((f, n)) => r == Ok::<(Fungibility, usize), DecodeError>((f, (start + n) as usize))
                && start + n <= bytes.len(),
            Err(e) => r == Err::<(Fungibility, usize), DecodeError>(e),
        },
{
    reveal(fungibility_parse);
    let ghost b = bytes@.skip(start as int);
    if start >= bytes.len() {
        return Err(DecodeError::UnexpectedEnd);
    }
    let tag: u8 = bytes[start];
    assert(b[0] == tag);
    proof {
        assert(b.skip(1) =~= bytes@.skip(start + 1));
    }
    if tag == 0 {
        match read_compact(bytes, start + 1) {
            Err(e) => Err(e),
            Ok((v, end)) => Ok((Fungibility::Fungible(v), end)),
        }
    } else if tag == 1 {
        match read_instance(bytes, start + 1) {
            Err(e) => Err(e),
            Ok((i, end)) => Ok((Fungibility::NonFungible(i), end)),
        }
    } else {
        Err(DecodeError::UnknownTag)
    }
}

impl Clone for AssetId {
    fn clone(&self) -> (id: AssetId)
        ensures
            id@ == self@,
    {
        match self {
            AssetId::Concrete(l) => AssetId::Concrete(l.clone()),
        }
    }
}

impl AssetId {
    /// The identity of the native asset: the one that the place itself
    /// issues.
    pub fn native() -> (id: AssetId)
        ensures
            id@ == AssetIdView::Concrete(LocationView::here()),
    {
        AssetId::Concrete(Location::here())
    }

    /// Appends the encoding of this identity to `out`.
    pub fn encode_to(&self, out: &mut Vec<u8>)
        ensures
            final(out)@ == old(out)@ + asset_id_encoding(self@),
            self@.wf(),
    {
        match self {
            AssetId::Concrete(l) => {
                out.push(0);
                let ghost mid = out@;
                l.encode_to(out);
                proof {
                    let body = location_encoding(l@);
                    assert(mid + body =~= old(out)@ + (seq![0u8] + body));
                }
            },
        }
    }
}

/// Reads one asset identity that starts at `start`; gives it and the
/// position just after it.
pub(crate) fn read_asset_id(bytes: &[u8], start: usize) -> (r: Result<(AssetId, usize), DecodeError>)
    requires
        start <= bytes.len(),
    ensures
        match asset_id_parse(bytes@.skip(start as int)) {
            Ok((id, n)) => match r {
                Ok((x, end)) => x@ == id && end == start + n && end <= bytes.len(),
                Err(_) => false,
            },
            Err(e) => r == Err::<(AssetId, usize), DecodeError>(e),
        },
{
    reveal(asset_id_parse);
    let ghost b = bytes@.skip(start as int);
    if start >= bytes.len() {
        return Err(DecodeError::UnexpectedEnd);
    }
    assert(b[0] == bytes@[start as int]);
    if bytes[start] != 0 {
        return Err(DecodeError::UnknownTag);
    }
    proof {
        assert(b.skip(1) =~= bytes@.skip(start + 1));
    }
    match read_location(bytes, start + 1) {
        Err(e) => Err(e),
        Ok((l, end)) => Ok((AssetId::Concrete(l), end)),
    }
}

impl Clone for Asset {
    fn clone(&self) -> (a: Asset)
        ensures
            a@ == self@,
    {
        Asset { id: self.id.clone(), fun: self.fun }
    }
}

impl Asset {
    /// The entry for `amount` of the native asset.
    pub fn native(amount: u128) -> (a: Asset)
        ensures
            a@ == AssetView::native(amount),
    {
        Asset { id: AssetId::native(), fun: Fungibility::Fungible(amount) }
    }

    /// Appends the encoding of this entry to `out`.
    pub fn encode_to(&self, out: &mut Vec<u8>)
        ensures
            final(out)@ == old(out)@ + asset_encoding(self@),
            self@.wf(),
    {
        self.id.encode_to(out);
        let ghost mid = out@;
        self.fun.encode_to(out);
        proof {
            let id = asset_id_encoding(self.id@);
            let fun = fungibility_encoding(self.fun);
            assert(mid + fun =~= old(out)@ + (id + fun));
        }
    }
}

/// Reads one asset entry that starts at `start`; gives it and the position
/// just after it.
pub(crate) fn read_asset(bytes: &[u8], start: usize) -> (r: Result<(Asset, usize), DecodeError>)
    requires
        start <= bytes.len(),
    ensures
        match asset_parse(bytes@.skip(start as int)) {
            Ok((a, n)) => match r {
                Ok((x, end)) => x@ == a && end == start + n && end <= bytes.len(),
                Err(_) => false,
            },
            Err(e) => r == Err::<(Asset, usize), DecodeError>(e),
        },
{
    reveal(asset_parse);
    let ghost b = bytes@.skip(start as int);
    match read_asset_id(bytes, start) {
        Err(e) => Err(e),
        Ok((id, mid)) => {
            proof {
                assert(b.skip(mid - start) =~= bytes@.skip(mid as int));
            }
            match read_fungibility(bytes, mid) {
                Err(e) => Err(e),
                Ok((fun, end)) => Ok((Asset { id, fun }, end)),
            }
        },
    }
}

impl Clone for AssetBundle {
    fn clone(&self) -> (bundle: AssetBundle)
        ensures
            bundle@ == self@,
    {
        proof {
            use_type_invariant(self);
        }
        let mut items: Vec<Asset> = Vec::new();
        let mut i: usize = 0;
        while i < self.items.len()
            invariant
                i <= self.items.len(),
                items.len() == i,
                asset_views(items@) == asset_views(self.items@).take(i as int),
            decreases self.items.len() - i,
        {
            items.push(self.items[i].clone());
            proof {
                assert(asset_views(items@) =~= asset_views(self.items@).take(i + 1));
            }
            i = i + 1;
        }
        proof {
            assert(asset_views(self.items@).take(self.items.len() as int) =~= asset_views(
                self.items@,
            ));
        }
        AssetBundle { items }
    }
}

impl AssetBundle {
    #[verifier::type_invariant]
    spec fn countable(self) -> bool {
        self.items.len() <= MAX_BUNDLE_LEN
    }

    /// The bundle of the given entries, in their order, unless they are too
    /// many for the format to count.
    pub fn new(items: Vec<Asset>) -> (r: Option<AssetBundle>)
        ensures
            match r {
                Some(bundle) => items.len() <= MAX_BUNDLE_LEN && bundle@ == asset_views(items@),
                None => items.len() > MAX_BUNDLE_LEN,
            },
    {
        if items.len() > MAX_BUNDLE_LEN {
            None
        } else {
            Some(AssetBundle { items })
        }
    }

    /// The bundle that holds the one given entry.
    pub fn single(asset: Asset) -> (bundle: AssetBundle)
        ensures
            bundle@ == seq![asset@],
    {
        let mut items: Vec<Asset> = Vec::new();
        items.push(asset);
        let bundle = AssetBundle { items };
        proof {
            assert(bundle@ =~= seq![asset@]);
        }
        bundle
    }

    /// The number of entries.
    pub fn len(&self) -> (n: usize)
        ensures
            n == self@.len(),
            n <= MAX_BUNDLE_LEN,
    {
        proof {
            use_type_invariant(self);
        }
        self.items.len()
    }

    /// The entry at the given position, if the bundle has one there.
    pub fn get(&self, index: usize) -> (r: Option<&Asset>)
        ensures
            match r {
                Some(a) => index < self@.len() && a@ == self@[index as int],
                None => index >= self@.len(),
            },
    {
        if index < self.items.len() {
            Some(&self.items[index])
        } else {
            None
        }
    }

    /// Appends the encoding of this bundle to `out`.
    pub fn encode_to(&self, out: &mut Vec<u8>)
        ensures
            final(out)@ == old(out)@ + bundle_encoding(self@),
            bundle_wf(self@),
    {
        proof {
            use_type_invariant(self);
        }
        let count: usize = self.items.len();
        let ghost views = asset_views(self.items@);
        let ghost head = compact_encoding(count as nat);
        encode_compact(count as u128, out);
        let mut i: usize = 0;
        proof {
            assert(views.take(0) =~= Seq::<AssetView>::empty());
            assert(out@ =~= old(out)@ + head + assets_encoding(views.take(0)));
        }
        while i < count
            invariant
                i <= count,
                count == self.items.len(),
                views == asset_views(self.items@),
                out@ == old(out)@ + head + assets_encoding(views.take(i as int)),
                forall|k: int| 0 <= k < i ==> (#[trigger] views[k]).wf(),
            decreases count - i,
        {
            let ghost before = out@;
            self.items[i].encode_to(out);
            proof {
                let upto = views.take(i + 1);
                assert(upto.drop_last() =~= views.take(i as int));
                assert(upto.last() == self.items@[i as int]@);
                assert(before + asset_encoding(views[i as int]) =~= old(out)@ + head
                    + assets_encoding(upto));
            }
            i = i + 1;
        }
        proof {
            assert(views.take(count as int) =~= views);
            assert(old(out)@ + head + assets_encoding(views) =~= old(out)@ + (head
                + assets_encoding(views)));
        }
    }
}

/// Reads one bundle that starts at `start`; gives it and the position just
/// after it.
pub(crate) fn read_bundle(bytes: &[u8], start: usize) -> (r: Result<
    (AssetBundle, usize),
    DecodeError,
>)
    requires
        start <= bytes.len(),
    ensures
        match bundle_parse(bytes@.skip(start as int)) {
            Ok((s, n)) => match r {
                Ok((x, end)) => x@ == s && end == start + n && end <= bytes.len(),
                Err(_) => false,
            },
            Err(e) => r == Err::<(AssetBundle, usize), DecodeError>(e),
        },
{
    let ghost b = bytes@.skip(start as int);
    let (count, first) = match read_compact(bytes, start) {
        Err(e) => {
            return Err(e);
        },
        Ok(found) => found,
    };
    if count > 0xffff_ffff {
        return Err(DecodeError::OutOfRange);
    }
    let ghost body = b.skip(first - start);
    let mut items: Vec<Asset> = Vec::new();
    let mut pos: usize = first;
    let mut i: u128 = 0;
    proof {
        assert(asset_views(items@) =~= Seq::<AssetView>::empty());
    }
    while i < count
        invariant
            i <= count <= MAX_BUNDLE_LEN,
            items.len() == i,
            start <= first <= pos <= bytes.len(),
            b == bytes@.skip(start as int),
            body == b.skip(first - start),
            compact_parse(b) == Ok::<(nat, nat), DecodeError>(
                (count as nat, (first - start) as nat),
            ),
            assets_parse(body, i as nat) == Ok::<(Seq<AssetView>, nat), DecodeError>(
                (asset_views(items@), (pos - first) as nat),
            ),
        decreases count - i,
    {
        proof {
            assert(body.skip(pos - first) =~= bytes@.skip(pos as int));
        }
        match read_asset(bytes, pos) {
            Err(e) => {
                proof {
                    assert(assets_parse(body, (i + 1) as nat) == Err::<
                        (Seq<AssetView>, nat),
                        DecodeError,
                    >(e));
                    lemma_assets_parse_error(body, (i + 1) as nat, count as nat);
                }
                return Err(e);
            },
            Ok((a, end)) => {
                let ghost before = asset_views(items@);
                items.push(a);
                proof {
                    assert(asset_views(items@) =~= before.push(a@));
                }
                pos = end;
                i = i + 1;
            },
        }
    }
    Ok((AssetBundle { items }, pos))
}

} // verus!
