//! The message builder: from a destination chain, a beneficiary account and
//! an amount to the three descriptors of a teleport, and from there to the
//! arguments of the call that carries them.

use vstd::prelude::*;
use crate::asset::{assets_encoding, Asset, AssetBundle, AssetView};
use crate::assets::{versioned_assets_encoding, VersionedAssets, VersionedAssetsView};
use crate::compact::{compact_encoding, le_bytes, write_le};
use crate::error::CallError;
use crate::junction::{Junction, JunctionView, NetworkId, ACCOUNT_ID_LEN};
use crate::location::{
    junctions_encoding, versioned_location_encoding, LegacyLocation, LegacyLocationView, VersionedLocation,
    VersionedLocationView,
};
use crate::version::Version;

verus! {

/// The index of the asset that pays the fees of a teleport built here.
pub const FEE_ASSET_ITEM: u32 = 0;

/// The destination of a teleport to the chain `destination_id`: a legacy
/// location of the one junction that names the chain.
pub open spec fn destination_descriptor(destination_id: u32) -> VersionedLocationView {
    VersionedLocationView::V0(LegacyLocationView::X1(JunctionView::Parachain(destination_id)))
}

/// The beneficiary of a teleport to the account `beneficiary_id`: a legacy
/// location of the one junction that names the account on any network.
pub open spec fn beneficiary_descriptor(beneficiary_id: Seq<u8>) -> VersionedLocationView {
    VersionedLocationView::V0(
        LegacyLocationView::X1(
            JunctionView::AccountId32 { network: NetworkId::Any, id: beneficiary_id },
        ),
    )
}

/// The assets of a teleport of `amount`: a bundle of the current format
/// whose one entry is that amount of the native asset.
pub open spec fn assets_descriptor(amount: u128) -> VersionedAssetsView {
    VersionedAssetsView::V1(seq![AssetView::native(amount)])
}

/// Whether `index` names an entry of `assets`.
pub open spec fn fee_item_valid(assets: VersionedAssetsView, index: u32) -> bool {
    index < assets.len()
}

/// The descriptors of a teleport of `amount` of the native asset to the
/// account `beneficiary_id` on the chain `destination_id`: the destination,
/// the beneficiary and the assets, in this order.
///
/// The amount is taken as it is; zero is built like any other.
pub fn build_teleport(destination_id: u32, beneficiary_id: [u8; 32], amount: u128) -> (r: (
    VersionedLocation,
    VersionedLocation,
    VersionedAssets,
))
    ensures
        r.0@ == destination_descriptor(destination_id),
        r.1@ == beneficiary_descriptor(beneficiary_id@),
        r.2@ == assets_descriptor(amount),
        r.0@.wf() && r.1@.wf() && r.2@.wf(),
{
    let dest = VersionedLocation::V0(LegacyLocation::X1(Junction::Parachain(destination_id)));
    let beneficiary = VersionedLocation::V0(
        LegacyLocation::X1(Junction::AccountId32 { network: NetworkId::Any, id: beneficiary_id }),
    );
    let assets = VersionedAssets::V1(AssetBundle::single(Asset::native(amount)));
    proof {
        lemma_descriptors_wf(destination_id, beneficiary_id@, amount);
    }
    (dest, beneficiary, assets)
}

/// The descriptors of every teleport are well formed, so each of them
/// survives encoding and decoding unchanged.
pub proof fn lemma_descriptors_wf(destination_id: u32, beneficiary_id: Seq<u8>, amount: u128)
    requires
        beneficiary_id.len() == ACCOUNT_ID_LEN,
    ensures
        destination_descriptor(destination_id).wf(),
        beneficiary_descriptor(beneficiary_id).wf(),
        assets_descriptor(amount).wf(),
{
}

/// The descriptors depend on nothing but the three arguments: equal
/// arguments give equal descriptors, and so equal bytes.
pub proof fn lemma_build_teleport_deterministic(
    first: (u32, Seq<u8>, u128),
    second: (u32, Seq<u8>, u128),
)
    requires
        first == second,
    ensures
        destination_descriptor(first.0) == destination_descriptor(second.0),
        beneficiary_descriptor(first.1) == beneficiary_descriptor(second.1),
        assets_descriptor(first.2) == assets_descriptor(second.2),
        call_encoding(teleport_call(first.0, first.1, first.2)) == call_encoding(
            teleport_call(second.0, second.1, second.2),
        ),
{
}

/// The bytes of the three descriptors of a teleport.
pub proof fn lemma_teleport_bytes(destination_id: u32, beneficiary_id: Seq<u8>, amount: u128)
    ensures
        versioned_location_encoding(destination_descriptor(destination_id)) == seq![0u8, 1, 1]
            + compact_encoding(destination_id as nat),
        versioned_location_encoding(beneficiary_descriptor(beneficiary_id)) == seq![0u8, 1, 2, 0]
            + beneficiary_id,
        versioned_assets_encoding(assets_descriptor(amount)) == seq![1u8, 4, 0, 0, 0, 0]
            + compact_encoding(amount as nat),
{
    let dest = versioned_location_encoding(destination_descriptor(destination_id));
    assert(dest =~= seq![0u8, 1, 1] + compact_encoding(destination_id as nat));
    let ben = versioned_location_encoding(beneficiary_descriptor(beneficiary_id));
    assert(ben =~= seq![0u8, 1, 2, 0] + beneficiary_id);
    let bundle = seq![AssetView::native(amount)];
    assert(bundle.drop_last() =~= Seq::<AssetView>::empty());
    assert(bundle.last() == AssetView::native(amount));
    reveal_with_fuel(assets_encoding, 2);
    assert(junctions_encoding(Seq::<JunctionView>::empty()) =~= Seq::<u8>::empty());
    assert(compact_encoding(1) =~= seq![4u8]);
    let assets = versioned_assets_encoding(assets_descriptor(amount));
    assert(assets =~= seq![1u8, 4, 0, 0, 0, 0] + compact_encoding(amount as nat));
}

/// The destination of a teleport is always written in the legacy format
/// and is always the one junction that names the destination chain.
pub proof fn lemma_destination_is_legacy_chain(destination_id: u32)
    ensures
        destination_descriptor(destination_id).version() == Version::V0,
        destination_descriptor(destination_id) matches VersionedLocationView::V0(
            LegacyLocationView::X1(j),
        ) && j == JunctionView::Parachain(destination_id),
{
}

/// The assets of a teleport are always exactly one entry, and that entry is
/// the given amount, unchanged, of the native asset.
pub proof fn lemma_assets_hold_amount(amount: u128)
    ensures
        assets_descriptor(amount).version() == Version::V1,
        assets_descriptor(amount).len() == 1,
        assets_descriptor(amount) matches VersionedAssetsView::V1(s) && s.len() == 1 && s[0]
            == AssetView::native(amount),
{
}

/// In a bundle of one entry the only valid fee asset index is zero.
pub proof fn lemma_single_entry_fee_item(assets: VersionedAssetsView, index: u32)
    requires
        assets.len() == 1,
    ensures
        fee_item_valid(assets, index) <==> index == 0,
{
}

/// The arguments of a teleport call: where the assets go, who receives
/// them, what they are, and which of them pays the fees.
#[derive(Debug, PartialEq, Eq)]
pub struct TeleportCall {
    dest: VersionedLocation,
    beneficiary: VersionedLocation,
    assets: VersionedAssets,
    fee_asset_item: u32,
}

/// What the arguments of a teleport call are.
pub struct TeleportCallView {
    pub dest: VersionedLocationView,
    pub beneficiary: VersionedLocationView,
    pub assets: VersionedAssetsView,
    pub fee_asset_item: u32,
}

impl TeleportCallView {
    /// The descriptors are well formed and the fee asset index names an
    /// entry of the bundle.
    pub open spec fn wf(self) -> bool {
        &&& self.dest.wf()
        &&& self.beneficiary.wf()
        &&& self.assets.wf()
        &&& fee_item_valid(self.assets, self.fee_asset_item)
    }
}

impl View for TeleportCall {
    type V = TeleportCallView;

    closed spec fn view(&self) -> TeleportCallView {
        TeleportCallView {
            dest: self.dest@,
            beneficiary: self.beneficiary@,
            assets: self.assets@,
            fee_asset_item: self.fee_asset_item,
        }
    }
}

/// The encoding of the arguments of a teleport call: the three descriptors
/// one after the other, then the fee asset index as four bytes, least
/// significant first.
pub open spec fn call_encoding(c: TeleportCallView) -> Seq<u8> {
    versioned_location_encoding(c.dest) + versioned_location_encoding(c.beneficiary)
        + versioned_assets_encoding(c.assets) + le_bytes(c.fee_asset_item as nat, 4)
}

/// What the arguments of the teleport that `build_teleport` describes are.
pub open spec fn teleport_call(
    destination_id: u32,
    beneficiary_id: Seq<u8>,
    amount: u128,
) -> TeleportCallView {
    TeleportCallView {
        dest: destination_descriptor(destination_id),
        beneficiary: beneficiary_descriptor(beneficiary_id),
        assets: assets_descriptor(amount),
        fee_asset_item: FEE_ASSET_ITEM,
    }
}

impl Clone for TeleportCall {
    fn clone(&self) -> (c: TeleportCall)
        ensures
            c@ == self@,
    {
        proof {
            use_type_invariant(self);
        }
        TeleportCall {
            dest: self.dest.clone(),
            beneficiary: self.beneficiary.clone(),
            assets: self.assets.clone(),
            fee_asset_item: self.fee_asset_item,
        }
    }
}

impl TeleportCall {
    #[verifier::type_invariant]
    spec fn fee_item_in_bundle(self) -> bool {
        fee_item_valid(self.assets@, self.fee_asset_item)
    }

    /// The call with the given arguments, unless the fee asset index names
    /// no entry of the bundle.
    pub fn new(
        dest: VersionedLocation,
        beneficiary: VersionedLocation,
        assets: VersionedAssets,
        fee_asset_item: u32,
    ) -> (r: Result<TeleportCall, CallError>)
        ensures
            match r {
                Ok(c) => fee_item_valid(assets@, fee_asset_item) && c@ == (TeleportCallView {
                    dest: dest@,
                    beneficiary: beneficiary@,
                    assets: assets@,
                    fee_asset_item,
                }),
                Err(e) => !fee_item_valid(assets@, fee_asset_item) && e
                    == CallError::FeeItemOutOfRange,
            },
    {
        let len = assets.len();
        if len > 0xffff_ffff || fee_asset_item < len as u32 {
            Ok(TeleportCall { dest, beneficiary, assets, fee_asset_item })
        } else {
            Err(CallError::FeeItemOutOfRange)
        }
    }

    /// The call that teleports `amount` of the native asset to the account
    /// `beneficiary_id` on the chain `destination_id`, with the fees paid
    /// from the one asset of the bundle.
    pub fn teleport(destination_id: u32, beneficiary_id: [u8; 32], amount: u128) -> (c:
        TeleportCall)
        ensures
            c@ == teleport_call(destination_id, beneficiary_id@, amount),
            c@.wf(),
    {
        let (dest, beneficiary, assets) = build_teleport(destination_id, beneficiary_id, amount);
        TeleportCall { dest, beneficiary, assets, fee_asset_item: FEE_ASSET_ITEM }
    }

    /// Where the assets go.
    pub fn dest(&self) -> (d: &VersionedLocation)
        ensures
            d@ == self@.dest,
    {
        &self.dest
    }

    /// Who receives the assets.
    pub fn beneficiary(&self) -> (b: &VersionedLocation)
        ensures
            b@ == self@.beneficiary,
    {
        &self.beneficiary
    }

    /// What is teleported.
    pub fn assets(&self) -> (a: &VersionedAssets)
        ensures
            a@ == self@.assets,
    {
        &self.assets
    }

    /// Which entry of the bundle pays the fees: always the index of an
    /// entry.
    pub fn fee_asset_item(&self) -> (i: u32)
        ensures
            i == self@.fee_asset_item,
            fee_item_valid(self@.assets, i),
    {
        proof {
            use_type_invariant(self);
        }
        self.fee_asset_item
    }

    /// The encoding of the arguments, as the call carries them.
    pub fn encode_args(&self) -> (bytes: Vec<u8>)
        ensures
            bytes@ == call_encoding(self@),
            self@.wf(),
    {
        proof {
            use_type_invariant(self);
        }
        let mut out: Vec<u8> = Vec::new();
        self.dest.encode_to(&mut out);
        self.beneficiary.encode_to(&mut out);
        self.assets.encode_to(&mut out);
        write_le(self.fee_asset_item as u128, 4, &mut out);
        proof {
            assert(out@ =~= call_encoding(self@));
        }
        out
    }
}

} // verus!
