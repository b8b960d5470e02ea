//! Deterministic, collision-resistant asset identification.
//!
//! An [`AssetLocator`] maps foreign-chain asset descriptors to flat 128-bit
//! local asset ids and back.  One reserved id — the native asset id — is tied
//! to the chain's own root location and is never derived by hashing; every
//! other id is the 128-bit digest of the descriptor's canonical encoding.
//! The table is append-only and the first registrant of an id wins.

use vstd::prelude::*;

use crate::digests::{blake2b_128, blake2b_128_of};
use crate::encoding::{encode_descriptor, spec_encode_descriptor};
use crate::location::{
    duplicate_descriptor, location_eq, native_location, spec_native_location, AssetDescriptor,
    DescriptorView,
};

verus! {

/// The derived id of a descriptor: the low 128 bits of the fixed hash of its
/// canonical encoding.
pub open spec fn spec_derived_id(d: DescriptorView) -> u128 {
    blake2b_128_of(spec_encode_descriptor(d))
}

/// The descriptor of the chain's own asset on network `network_id`.
pub open spec fn spec_native_descriptor(network_id: u8, para_id: u32) -> DescriptorView {
    DescriptorView { network: network_id, location: spec_native_location(para_id) }
}

/// First-match lookup in an id-to-descriptor table.
pub open spec fn spec_table_lookup(s: Seq<(u128, DescriptorView)>, id: u128) -> Option<
    DescriptorView,
>
    decreases s.len(),
{
    if s.len() == 0 {
        None
    } else if s[0].0 == id {
        Some(s[0].1)
    } else {
        spec_table_lookup(s.drop_first(), id)
    }
}

/// Whether the table holds an entry for `id`.
pub open spec fn spec_table_contains(s: Seq<(u128, DescriptorView)>, id: u128) -> bool {
    exists|i: int| 0 <= i < s.len() && s[i].0 == id
}

pub proof fn lemma_lookup_some_iff_contains(s: Seq<(u128, DescriptorView)>, id: u128)
    ensures
        spec_table_lookup(s, id) is Some <==> spec_table_contains(s, id),
    decreases s.len(),
{
    if s.len() != 0 {
        if s[0].0 == id {
            assert(spec_table_contains(s, id));
        } else {
            lemma_lookup_some_iff_contains(s.drop_first(), id);
            if spec_table_contains(s.drop_first(), id) {
                let i = choose|i: int| 0 <= i < s.drop_first().len() && s.drop_first()[i].0 == id;
                assert(s[i + 1].0 == id);
            }
            if spec_table_contains(s, id) {
                let i = choose|i: int| 0 <= i < s.len() && s[i].0 == id;
                assert(s.drop_first()[i - 1].0 == id);
            }
        }
    }
}

pub proof fn lemma_lookup_past_push(s: Seq<(u128, DescriptorView)>, id: u128, entry: (
    u128,
    DescriptorView,
))
    ensures
        spec_table_lookup(s.push(entry), id) == if spec_table_lookup(s, id) is Some {
            spec_table_lookup(s, id)
        } else if entry.0 == id {
            Some(entry.1)
        } else {
            None
        },
    decreases s.len(),
{
    let p = s.push(entry);
    if s.len() == 0 {
        assert(p[0] == entry);
        assert(spec_table_lookup(s, id) is None);
        if entry.0 == id {
            assert(spec_table_lookup(p, id) == Some(entry.1));
        } else {
            assert(p.drop_first() =~= s);
            assert(spec_table_lookup(p, id) == spec_table_lookup(p.drop_first(), id));
        }
    } else {
        assert(p[0] == s[0]);
        if s[0].0 == id {
            assert(spec_table_lookup(p, id) == Some(s[0].1));
            assert(spec_table_lookup(s, id) == Some(s[0].1));
        } else {
            assert(p.drop_first() =~= s.drop_first().push(entry));
            lemma_lookup_past_push(s.drop_first(), id, entry);
            assert(spec_table_lookup(p, id) == spec_table_lookup(s.drop_first().push(entry), id));
            assert(spec_table_lookup(s, id) == spec_table_lookup(s.drop_first(), id));
        }
    }
}

/// One registration step on a table, as `resolve_or_register` performs it:
/// the native descriptor and an already-present id leave the table alone,
/// anything else appends its derived entry.
pub open spec fn spec_register_entry(
    network_id: u8,
    para_id: u32,
    entries: Seq<(u128, DescriptorView)>,
    d: DescriptorView,
) -> Seq<(u128, DescriptorView)> {
    if d == spec_native_descriptor(network_id, para_id) || spec_table_contains(
        entries,
        spec_derived_id(d),
    ) {
        entries
    } else {
        entries.push((spec_derived_id(d), d))
    }
}

/// The table after registering each descriptor in order.
pub open spec fn spec_register_all(
    network_id: u8,
    para_id: u32,
    entries: Seq<(u128, DescriptorView)>,
    ds: Seq<DescriptorView>,
) -> Seq<(u128, DescriptorView)>
    decreases ds.len(),
{
    if ds.len() == 0 {
        entries
    } else {
        spec_register_all(
            network_id,
            para_id,
            spec_register_entry(network_id, para_id, entries, ds[0]),
            ds.drop_first(),
        )
    }
}

/// The bidirectional descriptor/id table, with the constants that pin the
/// native asset down.
pub struct AssetLocator {
    /// The network segment of the chain's own asset.
    pub network_id: u8,
    /// The chain's own parachain id.
    pub para_id: u32,
    /// The reserved id of the native asset; never derived by hashing.
    pub native_asset_id: u128,
    /// The registered (id, descriptor) pairs, append-only.
    pub table: Vec<(u128, AssetDescriptor)>,
}

impl AssetLocator {
    /// The registered entries as mathematical values.
    pub open spec fn entries(self) -> Seq<(u128, DescriptorView)> {
        self.table@.map_values(|p: (u128, AssetDescriptor)| (p.0, p.1@))
    }

    /// Well-formed: ids are unique and each entry's id is derived from its
    /// own descriptor.
    pub open spec fn wf(self) -> bool {
        &&& forall|i: int, j: int|
            0 <= i < j < self.entries().len() ==> self.entries()[i].0 != self.entries()[j].0
        &&& forall|i: int|
            0 <= i < self.entries().len() ==> self.entries()[i].0 == spec_derived_id(
                #[trigger] self.entries()[i].1,
            )
    }

    /// Whether `d` names the chain's own asset.
    pub open spec fn spec_is_native(self, d: DescriptorView) -> bool {
        d == spec_native_descriptor(self.network_id, self.para_id)
    }

    /// The id `d` resolves to: the reserved native id for the native
    /// descriptor, the derived id otherwise.
    pub open spec fn spec_asset_id(self, d: DescriptorView) -> u128 {
        if self.spec_is_native(d) {
            self.native_asset_id
        } else {
            spec_derived_id(d)
        }
    }

    /// The descriptor `id` resolves back to, if any: the native descriptor
    /// for the reserved id, else a pure table lookup.
    pub open spec fn spec_reverse(self, id: u128) -> Option<DescriptorView> {
        if id == self.native_asset_id {
            Some(spec_native_descriptor(self.network_id, self.para_id))
        } else {
            spec_table_lookup(self.entries(), id)
        }
    }

    /// The locator's constant part is unchanged.
    pub open spec fn constants_unchanged(self, other: AssetLocator) -> bool {
        &&& self.network_id == other.network_id
        &&& self.para_id == other.para_id
        &&& self.native_asset_id == other.native_asset_id
    }

    /// An empty locator for the given chain constants.
    pub fn new(network_id: u8, para_id: u32, native_asset_id: u128) -> (r: AssetLocator)
        ensures
            r.wf(),
            r.network_id == network_id,
            r.para_id == para_id,
            r.native_asset_id == native_asset_id,
            r.entries() == Seq::<(u128, DescriptorView)>::empty(),
    {
        let r = AssetLocator { network_id, para_id, native_asset_id, table: Vec::new() };
        proof {
            assert(r.entries() =~= Seq::<(u128, DescriptorView)>::empty());
        }
        r
    }

    /// Whether `d` names the chain's own asset.
    pub fn is_native_descriptor(&self, d: &AssetDescriptor) -> (r: bool)
        ensures
            r == self.spec_is_native(d@),
    {
        if d.network != self.network_id {
            return false;
        }
        let native = native_location(self.para_id);
        let r = location_eq(&d.location, &native);
        proof {
            if r {
                assert(d@ =~= spec_native_descriptor(self.network_id, self.para_id));
            }
        }
        r
    }

    /// Whether some entry carries the id.
    fn contains_id(&self, id: u128) -> (r: bool)
        ensures
            r == spec_table_contains(self.entries(), id),
    {
        let n = self.table.len();
        let mut i: usize = 0;
        while i < n
            invariant
                n == self.table.len(),
                0 <= i <= n,
                forall|k: int| 0 <= k < i ==> self.entries()[k].0 != id,
            decreases n - i,
        {
            if self.table[i].0 == id {
                proof {
                    assert(self.entries()[i as int].0 == id);
                }
                return true;
            }
            i = i + 1;
        }
        false
    }

    /// Resolves `d` to its local id, registering the pair on first sight.
    ///
    /// Returns the reserved native id for the native descriptor; otherwise
    /// derives the id from the canonical encoding and, only if no entry with
    /// that id exists yet, appends `(id, d)` — the first registrant wins and
    /// an existing mapping is never overwritten.
    pub fn resolve_or_register(&mut self, d: &AssetDescriptor) -> (id: u128)
        requires
            old(self).wf(),
        ensures
            final(self).wf(),
            final(self).constants_unchanged(*old(self)),
            id == old(self).spec_asset_id(d@),
            final(self).entries() == if old(self).spec_is_native(d@) || spec_table_contains(
                old(self).entries(),
                spec_derived_id(d@),
            ) {
                old(self).entries()
            } else {
                old(self).entries().push((spec_derived_id(d@), d@))
            },
    {
        if self.is_native_descriptor(d) {
            return self.native_asset_id;
        }
        let encoded = encode_descriptor(d);
        let id = blake2b_128(&encoded);
        if !self.contains_id(id) {
            let ghost pre = self.entries();
            self.table.push((id, duplicate_descriptor(d)));
            proof {
                assert(self.entries() =~= pre.push((id, d@)));
            }
        }
        id
    }

    /// Pure reverse lookup; never derives a fresh mapping.
    pub fn reverse(&self, id: u128) -> (r: Option<AssetDescriptor>)
        ensures
            match r {
                Some(d) => self.spec_reverse(id) == Some(d@),
                None => self.spec_reverse(id) is None,
            },
    {
        if id == self.native_asset_id {
            let d = AssetDescriptor { network: self.network_id, location: native_location(
                self.para_id,
            ) };
            proof {
                assert(d@ =~= spec_native_descriptor(self.network_id, self.para_id));
            }
            return Some(d);
        }
        let n = self.table.len();
        let mut i: usize = 0;
        proof {
            assert(self.entries().skip(0) =~= self.entries());
        }
        while i < n
            invariant
                n == self.table.len(),
                0 <= i <= n,
                id != self.native_asset_id,
                spec_table_lookup(self.entries(), id) == spec_table_lookup(
                    self.entries().skip(i as int),
                    id,
                ),
            decreases n - i,
        {
            proof {
                assert(self.entries()[i as int] == (self.table@[i as int].0, self.table@[
                i as int].1@));
                assert(self.entries().skip(i as int)[0] == self.entries()[i as int]);
                assert(self.entries().skip(i as int).drop_first() =~= self.entries().skip(i + 1));
            }
            if self.table[i].0 == id {
                let d = duplicate_descriptor(&self.table[i].1);
                proof {
                    assert(self.entries().skip(i as int)[0].0 == id);
                    assert(spec_table_lookup(self.entries().skip(i as int), id) == Some(
                        self.entries()[i as int].1));
                    assert(self.entries()[i as int].1 == self.table@[i as int].1@);
                    assert(d@ == self.table@[i as int].1@);
                    assert(id != self.native_asset_id);
                    assert(spec_table_lookup(self.entries(), id) == spec_table_lookup(
                        self.entries().skip(i as int),
                        id,
                    ));
                    assert(spec_table_lookup(self.entries(), id) == Some(d@));
                    assert(self.spec_reverse(id) == Some(d@));
                }
                return Some(d);
            }
            i = i + 1;
        }
        proof {
            assert(self.entries().skip(n as int) =~= Seq::<(u128, DescriptorView)>::empty());
        }
        None
    }

    /// The id a descriptor resolves to, computed without registering it.
    pub fn convert_location_to_asset_id(&self, d: &AssetDescriptor) -> (id: u128)
        ensures
            id == self.spec_asset_id(d@),
    {
        if self.is_native_descriptor(d) {
            return self.native_asset_id;
        }
        let encoded = encode_descriptor(d);
        blake2b_128(&encoded)
    }

    /// The number of registered entries.
    pub fn table_len(&self) -> (n: usize)
        ensures
            n == self.entries().len(),
    {
        self.table.len()
    }
}

/// Registration is idempotent: if one call of `resolve_or_register` takes the
/// locator from `l0` to `l1` returning `id1`, and a second call with the same
/// descriptor takes `l1` to `l2` returning `id2`, then the ids are equal, the
/// second call changes nothing, and the table has grown by at most one entry.
pub proof fn lemma_resolve_or_register_idempotent(
    l0: AssetLocator,
    l1: AssetLocator,
    l2: AssetLocator,
    d: DescriptorView,
    id1: u128,
    id2: u128,
)
    requires
        l1.constants_unchanged(l0),
        l2.constants_unchanged(l1),
        id1 == l0.spec_asset_id(d),
        id2 == l1.spec_asset_id(d),
        l1.entries() == if l0.spec_is_native(d) || spec_table_contains(
            l0.entries(),
            spec_derived_id(d),
        ) {
            l0.entries()
        } else {
            l0.entries().push((spec_derived_id(d), d))
        },
        l2.entries() == if l1.spec_is_native(d) || spec_table_contains(
            l1.entries(),
            spec_derived_id(d),
        ) {
            l1.entries()
        } else {
            l1.entries().push((spec_derived_id(d), d))
        },
    ensures
        id1 == id2,
        l2.entries() == l1.entries(),
        l1.entries().len() <= l0.entries().len() + 1,
{
    if !l0.spec_is_native(d) && !spec_table_contains(l0.entries(), spec_derived_id(d)) {
        let pushed = l0.entries().push((spec_derived_id(d), d));
        assert(pushed[l0.entries().len() as int].0 == spec_derived_id(d));
        assert(spec_table_contains(l1.entries(), spec_derived_id(d)));
    }
}

/// Resolving then reversing gives the descriptor back: if one call of
/// `resolve_or_register` takes the locator from `l0` to `l1` returning `id`,
/// then `reverse(id)` on `l1` finds exactly `d`.  The precondition excludes a
/// derived id that collides with an earlier registrant or with the reserved
/// native id — the accepted residual risk of the fixed-width hash.
pub proof fn lemma_resolve_reverse_round_trip(
    l0: AssetLocator,
    l1: AssetLocator,
    d: DescriptorView,
    id: u128,
)
    requires
        l0.wf(),
        id == l0.spec_asset_id(d),
        l1.constants_unchanged(l0),
        l1.entries() == if l0.spec_is_native(d) || spec_table_contains(
            l0.entries(),
            spec_derived_id(d),
        ) {
            l0.entries()
        } else {
            l0.entries().push((spec_derived_id(d), d))
        },
        !l0.spec_is_native(d) ==> spec_derived_id(d) != l0.native_asset_id,
        !l0.spec_is_native(d) ==> (match spec_table_lookup(l0.entries(), spec_derived_id(d)) {
            Some(prior) => prior == d,
            None => true,
        }),
    ensures
        l1.spec_reverse(id) == Some(d),
{
    if l0.spec_is_native(d) {
        assert(l1.spec_reverse(id) == Some(spec_native_descriptor(l1.network_id, l1.para_id)));
    } else {
        lemma_lookup_some_iff_contains(l0.entries(), spec_derived_id(d));
        if spec_table_contains(l0.entries(), spec_derived_id(d)) {
            assert(l1.spec_reverse(id) == spec_table_lookup(l0.entries(), spec_derived_id(d)));
        } else {
            lemma_lookup_past_push(l0.entries(), spec_derived_id(d), (spec_derived_id(d), d));
        }
    }
}

} // verus!
