//! Hierarchical locations and asset descriptors.
//!
//! A [`Location`] is a path on the multi-chain network: how many hops up
//! towards the relay (`parents`) followed by a trail of [`Junction`]s.  An
//! [`AssetDescriptor`] names a fungible asset on a specific foreign chain: a
//! network segment plus the asset's location.  Two descriptors denote the
//! same asset exactly when their canonical encodings are byte-equal
//! ([`crate::encoding::lemma_encode_descriptor_injective`]).

use vstd::prelude::*;

verus! {

/// One segment of a hierarchical location path.
#[derive(Clone, Copy, PartialEq, Eq, Structural, Debug)]
pub enum Junction {
    /// A sibling or child parachain, by its numeric id.
    Parachain(u32),
    /// An account on the current chain, by its numeric index.
    AccountIndex64(u64),
    /// A general-purpose index, e.g. an asset id inside a registry.
    GeneralIndex(u128),
}

/// A hierarchical location: `parents` hops up, then the interior path.
#[derive(Clone, PartialEq, Eq, Debug)]
pub struct Location {
    pub parents: u8,
    pub interior: Vec<Junction>,
}

/// The mathematical value of a [`Location`].
#[verifier::ext_equal]
pub ghost struct LocationView {
    pub parents: u8,
    pub interior: Seq<Junction>,
}

impl View for Location {
    type V = LocationView;

    open spec fn view(&self) -> LocationView {
        LocationView { parents: self.parents, interior: self.interior@ }
    }
}

/// A foreign-chain asset: the network it lives on and its location there.
#[derive(Clone, PartialEq, Eq, Debug)]
pub struct AssetDescriptor {
    pub network: u8,
    pub location: Location,
}

/// The mathematical value of an [`AssetDescriptor`].
#[verifier::ext_equal]
pub ghost struct DescriptorView {
    pub network: u8,
    pub location: LocationView,
}

impl View for AssetDescriptor {
    type V = DescriptorView;

    open spec fn view(&self) -> DescriptorView {
        DescriptorView { network: self.network, location: self.location@ }
    }
}

/// The chain's own root location as seen from a sibling: one hop up, then
/// down into the parachain itself.
pub open spec fn spec_native_location(para_id: u32) -> LocationView {
    LocationView { parents: 1, interior: seq![Junction::Parachain(para_id)] }
}

/// Builds the chain's own root location.
pub fn native_location(para_id: u32) -> (r: Location)
    ensures
        r@ == spec_native_location(para_id),
{
    let r = Location { parents: 1, interior: vec![Junction::Parachain(para_id)] };
    proof {
        assert(r@ =~= spec_native_location(para_id));
    }
    r
}

/// The account a local destination names: a zero-parent location whose whole
/// interior is a single account junction.  Any other shape names no local
/// account.
pub open spec fn spec_destination_account(l: LocationView) -> Option<u64> {
    if l.parents == 0 && l.interior.len() == 1 {
        match l.interior[0] {
            Junction::AccountIndex64(a) => Some(a),
            _ => None,
        }
    } else {
        None
    }
}

/// Extracts the local account a destination location names, if any.
pub fn get_destination_account(l: &Location) -> (r: Option<u64>)
    ensures
        r == spec_destination_account(l@),
{
    if l.parents == 0 && l.interior.len() == 1 {
        match l.interior[0] {
            Junction::AccountIndex64(a) => Some(a),
            _ => None,
        }
    } else {
        None
    }
}

/// A destination is on this chain exactly when its path climbs no parents.
pub fn is_polkadex_parachain_destination(destination: &Location) -> (r: bool)
    ensures
        r == (destination@.parents == 0),
{
    destination.parents == 0
}

/// Whether the asset is the chain's own token as seen from the chain
/// itself: the root location, zero parents and an empty path.
pub fn is_parachain_asset(asset: &AssetDescriptor) -> (r: bool)
    ensures
        r == (asset@.location.parents == 0 && asset@.location.interior.len() == 0),
{
    asset.location.parents == 0 && asset.location.interior.len() == 0
}

/// Structural equality of two locations.
pub fn location_eq(a: &Location, b: &Location) -> (r: bool)
    ensures
        r == (a@ == b@),
{
    if a.parents != b.parents {
        return false;
    }
    if a.interior.len() != b.interior.len() {
        proof {
            assert(a@.interior.len() != b@.interior.len());
        }
        return false;
    }
    let n = a.interior.len();
    let mut i: usize = 0;
    while i < n
        invariant
            n == a.interior.len() == b.interior.len(),
            0 <= i <= n,
            forall|k: int| 0 <= k < i ==> a.interior@[k] == b.interior@[k],
        decreases n - i,
    {
        if a.interior[i] != b.interior[i] {
            return false;
        }
        i = i + 1;
    }
    proof {
        assert(a@.interior =~= b@.interior);
        assert(a@ =~= b@);
    }
    true
}

/// Structural equality of two descriptors.
pub fn descriptor_eq(a: &AssetDescriptor, b: &AssetDescriptor) -> (r: bool)
    ensures
        r == (a@ == b@),
{
    if a.network != b.network {
        return false;
    }
    let r = location_eq(&a.location, &b.location);
    proof {
        if a@.location == b@.location && a@.network == b@.network {
            assert(a@ =~= b@);
        }
    }
    r
}

/// An owned copy of a location, equal in value to the original.
pub fn duplicate_location(l: &Location) -> (r: Location)
    ensures
        r@ == l@,
{
    let mut interior: Vec<Junction> = Vec::new();
    let n = l.interior.len();
    let mut i: usize = 0;
    while i < n
        invariant
            n == l.interior.len(),
            0 <= i <= n,
            interior@ =~= l.interior@.subrange(0, i as int),
        decreases n - i,
    {
        interior.push(l.interior[i]);
        i = i + 1;
    }
    let r = Location { parents: l.parents, interior };
    proof {
        assert(r.interior@ =~= l.interior@);
        assert(r@ =~= l@);
    }
    r
}

/// An owned copy of a descriptor, equal in value to the original.
pub fn duplicate_descriptor(d: &AssetDescriptor) -> (r: AssetDescriptor)
    ensures
        r@ == d@,
{
    let r = AssetDescriptor { network: d.network, location: duplicate_location(&d.location) };
    proof {
        assert(r@ =~= d@);
    }
    r
}

/// An owned copy of a byte vector, equal in value to the original.
pub fn copy_bytes(v: &Vec<u8>) -> (r: Vec<u8>)
    ensures
        r@ == v@,
{
    let mut r: Vec<u8> = Vec::new();
    let n = v.len();
    let mut i: usize = 0;
    while i < n
        invariant
            n == v.len(),
            0 <= i <= n,
            r@ =~= v@.subrange(0, i as int),
        decreases n - i,
    {
        r.push(v[i]);
        i = i + 1;
    }
    proof {
        assert(r@ =~= v@);
    }
    r
}

} // verus!
