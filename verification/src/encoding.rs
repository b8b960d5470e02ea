//! Canonical byte encodings.
//!
//! Asset ids are derived by hashing the canonical encoding of a descriptor,
//! and withdrawal batches are signed over the canonical encoding of the
//! batch.  Every integer is laid out little-endian, every junction carries a
//! tag with a fixed-width payload, and every variable-length part is
//! preceded by its length, so the encoding of a descriptor is injective:
//! descriptors are byte-equal exactly when they are equal.

use vstd::prelude::*;

use crate::location::{AssetDescriptor, DescriptorView, Junction, Location, LocationView};
use crate::withdrawal::{request_views, ScheduleRequest, ScheduleRequestView};

verus! {

/// The four little-endian bytes of a 32-bit integer.
pub open spec fn spec_le_u32(x: u32) -> Seq<u8> {
    seq![
        (x % 0x100) as u8,
        ((x / 0x100) % 0x100) as u8,
        ((x / 0x10000) % 0x100) as u8,
        ((x / 0x1000000) % 0x100) as u8,
    ]
}

/// The eight little-endian bytes of a 64-bit integer.
pub open spec fn spec_le_u64(x: u64) -> Seq<u8> {
    spec_le_u32((x % 0x100000000) as u32) + spec_le_u32((x / 0x100000000) as u32)
}

/// The sixteen little-endian bytes of a 128-bit integer.
pub open spec fn spec_le_u128(x: u128) -> Seq<u8> {
    spec_le_u64((x % 0x10000000000000000) as u64) + spec_le_u64((x / 0x10000000000000000) as u64)
}

/// Appends the four little-endian bytes of `x`.
pub fn push_le_u32(out: &mut Vec<u8>, x: u32)
    ensures
        final(out)@ == old(out)@ + spec_le_u32(x),
{
    out.push((x % 0x100) as u8);
    out.push(((x / 0x100) % 0x100) as u8);
    out.push(((x / 0x10000) % 0x100) as u8);
    out.push(((x / 0x1000000) % 0x100) as u8);
    proof {
        assert(out@ =~= old(out)@ + spec_le_u32(x));
    }
}

/// Appends the eight little-endian bytes of `x`.
pub fn push_le_u64(out: &mut Vec<u8>, x: u64)
    ensures
        final(out)@ == old(out)@ + spec_le_u64(x),
{
    push_le_u32(out, (x % 0x100000000) as u32);
    push_le_u32(out, (x / 0x100000000) as u32);
    proof {
        assert(out@ =~= old(out)@ + spec_le_u64(x));
    }
}

/// Appends the sixteen little-endian bytes of `x`.
pub fn push_le_u128(out: &mut Vec<u8>, x: u128)
    ensures
        final(out)@ == old(out)@ + spec_le_u128(x),
{
    push_le_u64(out, (x % 0x10000000000000000) as u64);
    push_le_u64(out, (x / 0x10000000000000000) as u64);
    proof {
        assert(out@ =~= old(out)@ + spec_le_u128(x));
    }
}

/// The canonical encoding of one junction: a tag byte, then a fixed-width
/// little-endian payload.
pub open spec fn spec_encode_junction(j: Junction) -> Seq<u8> {
    match j {
        Junction::Parachain(p) => seq![0u8] + spec_le_u32(p),
        Junction::AccountIndex64(a) => seq![1u8] + spec_le_u64(a),
        Junction::GeneralIndex(i) => seq![2u8] + spec_le_u128(i),
    }
}

/// The concatenated encodings of a junction path.
pub open spec fn spec_encode_junctions(js: Seq<Junction>) -> Seq<u8>
    decreases js.len(),
{
    if js.len() == 0 {
        Seq::empty()
    } else {
        spec_encode_junction(js[0]) + spec_encode_junctions(js.drop_first())
    }
}

/// The canonical encoding of a location: the parent count, the junction
/// count, then each junction in order.
pub open spec fn spec_encode_location(l: LocationView) -> Seq<u8> {
    seq![l.parents] + spec_le_u64(l.interior.len() as u64) + spec_encode_junctions(l.interior)
}

/// The canonical encoding of a descriptor: its network segment, then its
/// location.
pub open spec fn spec_encode_descriptor(d: DescriptorView) -> Seq<u8> {
    seq![d.network] + spec_encode_location(d.location)
}

proof fn lemma_encode_junctions_snoc(js: Seq<Junction>, j: Junction)
    ensures
        spec_encode_junctions(js.push(j)) == spec_encode_junctions(js) + spec_encode_junction(j),
    decreases js.len(),
{
    if js.len() == 0 {
        assert(js.push(j).drop_first() =~= js);
        assert(spec_encode_junctions(js.push(j)) =~= spec_encode_junctions(js)
            + spec_encode_junction(j));
    } else {
        assert(js.push(j).drop_first() =~= js.drop_first().push(j));
        lemma_encode_junctions_snoc(js.drop_first(), j);
        assert(spec_encode_junctions(js.push(j)) =~= spec_encode_junctions(js)
            + spec_encode_junction(j));
    }
}

/// Appends the canonical encoding of one junction.
pub fn encode_junction_into(out: &mut Vec<u8>, j: &Junction)
    ensures
        final(out)@ == old(out)@ + spec_encode_junction(*j),
{
    match j {
        Junction::Parachain(p) => {
            out.push(0u8);
            push_le_u32(out, *p);
        },
        Junction::AccountIndex64(a) => {
            out.push(1u8);
            push_le_u64(out, *a);
        },
        Junction::GeneralIndex(i) => {
            out.push(2u8);
            push_le_u128(out, *i);
        },
    }
    proof {
        assert(out@ =~= old(out)@ + spec_encode_junction(*j));
    }
}

/// Appends the canonical encoding of a location.
pub fn encode_location_into(out: &mut Vec<u8>, l: &Location)
    ensures
        final(out)@ == old(out)@ + spec_encode_location(l@),
{
    out.push(l.parents);
    push_le_u64(out, l.interior.len() as u64);
    let ghost base = out@;
    let n = l.interior.len();
    let mut i: usize = 0;
    while i < n
        invariant
            n == l.interior.len(),
            0 <= i <= n,
            out@ == base + spec_encode_junctions(l.interior@.subrange(0, i as int)),
        decreases n - i,
    {
        proof {
            assert(l.interior@.subrange(0, i + 1) =~= l.interior@.subrange(0, i as int).push(
                l.interior@[i as int]));
            lemma_encode_junctions_snoc(l.interior@.subrange(0, i as int), l.interior@[i as int]);
        }
        encode_junction_into(out, &l.interior[i]);
        i = i + 1;
    }
    proof {
        assert(l.interior@.subrange(0, n as int) =~= l.interior@);
        assert(out@ =~= old(out)@ + spec_encode_location(l@));
    }
}

/// The canonical encoding of a descriptor as owned bytes.
pub fn encode_descriptor(d: &AssetDescriptor) -> (r: Vec<u8>)
    ensures
        r@ == spec_encode_descriptor(d@),
{
    let mut out: Vec<u8> = Vec::new();
    out.push(d.network);
    encode_location_into(&mut out, &d.location);
    proof {
        assert(out@ =~= spec_encode_descriptor(d@));
    }
    out
}

proof fn lemma_concat_equal_parts(a1: Seq<u8>, a2: Seq<u8>, b1: Seq<u8>, b2: Seq<u8>)
    requires
        a1.len() == b1.len(),
        a1 + a2 == b1 + b2,
    ensures
        a1 == b1,
        a2 == b2,
{
    assert forall|i: int| 0 <= i < a1.len() implies a1[i] == b1[i] by {
        assert((a1 + a2)[i] == a1[i]);
        assert((b1 + b2)[i] == b1[i]);
    }
    assert(a1 =~= b1);
    assert((a1 + a2).len() == a1.len() + a2.len());
    assert((b1 + b2).len() == b1.len() + b2.len());
    assert(a2.len() == b2.len());
    assert forall|i: int| 0 <= i < a2.len() implies a2[i] == b2[i] by {
        assert((a1 + a2)[a1.len() + i] == a2[i]);
        assert((b1 + b2)[b1.len() + i] == b2[i]);
    }
    assert(a2 =~= b2);
}

proof fn lemma_le_u32_injective(x: u32, y: u32)
    requires
        spec_le_u32(x) == spec_le_u32(y),
    ensures
        x == y,
{
    assert(spec_le_u32(x)[0] == spec_le_u32(y)[0]);
    assert(spec_le_u32(x)[1] == spec_le_u32(y)[1]);
    assert(spec_le_u32(x)[2] == spec_le_u32(y)[2]);
    assert(spec_le_u32(x)[3] == spec_le_u32(y)[3]);
    assert((x % 0x100 == y % 0x100 && (x / 0x100) % 0x100 == (y / 0x100) % 0x100 && (x / 0x10000)
        % 0x100 == (y / 0x10000) % 0x100 && (x / 0x1000000) % 0x100 == (y / 0x1000000) % 0x100)
        ==> x == y) by (bit_vector);
}

#[verifier::rlimit(50)]
proof fn lemma_le_u64_injective(x: u64, y: u64)
    requires
        spec_le_u64(x) == spec_le_u64(y),
    ensures
        x == y,
{
    lemma_concat_equal_parts(
        spec_le_u32((x % 0x100000000) as u32),
        spec_le_u32((x / 0x100000000) as u32),
        spec_le_u32((y % 0x100000000) as u32),
        spec_le_u32((y / 0x100000000) as u32),
    );
    lemma_le_u32_injective((x % 0x100000000) as u32, (y % 0x100000000) as u32);
    lemma_le_u32_injective((x / 0x100000000) as u32, (y / 0x100000000) as u32);
    assert((x % 0x100000000 == y % 0x100000000 && x / 0x100000000 == y / 0x100000000) ==> x == y)
        by (bit_vector);
}

#[verifier::rlimit(100)]
#[verifier::spinoff_prover]
proof fn lemma_le_u128_injective(x: u128, y: u128)
    requires
        spec_le_u128(x) == spec_le_u128(y),
    ensures
        x == y,
{
    lemma_concat_equal_parts(
        spec_le_u64((x % 0x10000000000000000) as u64),
        spec_le_u64((x / 0x10000000000000000) as u64),
        spec_le_u64((y % 0x10000000000000000) as u64),
        spec_le_u64((y / 0x10000000000000000) as u64),
    );
    lemma_le_u64_injective((x % 0x10000000000000000) as u64, (y % 0x10000000000000000) as u64);
    lemma_le_u64_injective((x / 0x10000000000000000) as u64, (y / 0x10000000000000000) as u64);
    assert((x % 0x10000000000000000 == y % 0x10000000000000000 && x / 0x10000000000000000 == y
        / 0x10000000000000000) ==> x == y) by (bit_vector);
}

/// The tag byte and the fixed total width of a junction encoding.
proof fn lemma_encode_junction_shape(j: Junction)
    ensures
        spec_encode_junction(j).len() == match j {
            Junction::Parachain(_) => 5int,
            Junction::AccountIndex64(_) => 9int,
            Junction::GeneralIndex(_) => 17int,
        },
        spec_encode_junction(j)[0] == match j {
            Junction::Parachain(_) => 0u8,
            Junction::AccountIndex64(_) => 1u8,
            Junction::GeneralIndex(_) => 2u8,
        },
{
}

proof fn lemma_encode_junction_injective(a: Junction, b: Junction)
    requires
        spec_encode_junction(a) == spec_encode_junction(b),
    ensures
        a == b,
{
    lemma_encode_junction_shape(a);
    lemma_encode_junction_shape(b);
    match (a, b) {
        (Junction::Parachain(x), Junction::Parachain(y)) => {
            lemma_concat_equal_parts(seq![0u8], spec_le_u32(x), seq![0u8], spec_le_u32(y));
            lemma_le_u32_injective(x, y);
        },
        (Junction::AccountIndex64(x), Junction::AccountIndex64(y)) => {
            lemma_concat_equal_parts(seq![1u8], spec_le_u64(x), seq![1u8], spec_le_u64(y));
            lemma_le_u64_injective(x, y);
        },
        (Junction::GeneralIndex(x), Junction::GeneralIndex(y)) => {
            lemma_concat_equal_parts(seq![2u8], spec_le_u128(x), seq![2u8], spec_le_u128(y));
            lemma_le_u128_injective(x, y);
        },
        _ => {
            assert(spec_encode_junction(a)[0] != spec_encode_junction(b)[0]);
        },
    }
}

#[verifier::rlimit(100)]
#[verifier::spinoff_prover]
proof fn lemma_encode_junctions_injective(a: Seq<Junction>, b: Seq<Junction>)
    requires
        a.len() == b.len(),
        spec_encode_junctions(a) == spec_encode_junctions(b),
    ensures
        a == b,
    decreases a.len(),
{
    if a.len() != 0 {
        lemma_encode_junction_shape(a[0]);
        lemma_encode_junction_shape(b[0]);
        assert(spec_encode_junctions(a)[0] == spec_encode_junction(a[0])[0]);
        assert(spec_encode_junctions(b)[0] == spec_encode_junction(b[0])[0]);
        assert(spec_encode_junction(a[0]).len() == spec_encode_junction(b[0]).len());
        lemma_concat_equal_parts(
            spec_encode_junction(a[0]),
            spec_encode_junctions(a.drop_first()),
            spec_encode_junction(b[0]),
            spec_encode_junctions(b.drop_first()),
        );
        lemma_encode_junction_injective(a[0], b[0]);
        lemma_encode_junctions_injective(a.drop_first(), b.drop_first());
        assert forall|i: int| 0 <= i < a.len() implies a[i] == b[i] by {
            if i > 0 {
                assert(a.drop_first()[i - 1] == a[i]);
                assert(b.drop_first()[i - 1] == b[i]);
            }
        }
        assert(a =~= b);
    } else {
        assert(a =~= b);
    }
}

#[verifier::rlimit(100)]
#[verifier::spinoff_prover]
proof fn lemma_encode_location_injective(a: LocationView, b: LocationView)
    requires
        a.interior.len() <= u64::MAX,
        b.interior.len() <= u64::MAX,
        spec_encode_location(a) == spec_encode_location(b),
    ensures
        a == b,
{
    let la = spec_le_u64(a.interior.len() as u64);
    let lb = spec_le_u64(b.interior.len() as u64);
    let ja = spec_encode_junctions(a.interior);
    let jb = spec_encode_junctions(b.interior);
    assert(spec_encode_location(a) =~= seq![a.parents] + (la + ja));
    assert(spec_encode_location(b) =~= seq![b.parents] + (lb + jb));
    lemma_concat_equal_parts(seq![a.parents], la + ja, seq![b.parents], lb + jb);
    assert(seq![a.parents][0] == seq![b.parents][0]);
    assert(la.len() == 8 && lb.len() == 8);
    lemma_concat_equal_parts(la, ja, lb, jb);
    lemma_le_u64_injective(a.interior.len() as u64, b.interior.len() as u64);
    lemma_encode_junctions_injective(a.interior, b.interior);
    assert(a =~= b);
}

/// Two descriptors are equal exactly when their canonical encodings are
/// byte-equal: the encoding is injective.  (The bound on the junction count
/// only keeps the length prefix faithful; any descriptor held in memory
/// satisfies it.)
pub proof fn lemma_encode_descriptor_injective(a: DescriptorView, b: DescriptorView)
    requires
        a.location.interior.len() <= u64::MAX,
        b.location.interior.len() <= u64::MAX,
    ensures
        (spec_encode_descriptor(a) == spec_encode_descriptor(b)) <==> (a == b),
{
    if spec_encode_descriptor(a) == spec_encode_descriptor(b) {
        lemma_concat_equal_parts(
            seq![a.network],
            spec_encode_location(a.location),
            seq![b.network],
            spec_encode_location(b.location),
        );
        assert(seq![a.network][0] == seq![b.network][0]);
        lemma_encode_location_injective(a.location, b.location);
        assert(a =~= b);
    }
}

/// The canonical encoding of one schedule request: the asset descriptor, the
/// amount, the destination, then the length-prefixed extra bytes.
pub open spec fn spec_encode_request(r: ScheduleRequestView) -> Seq<u8> {
    spec_encode_descriptor(r.asset) + spec_le_u128(r.amount) + spec_encode_location(r.destination)
        + spec_le_u64(r.extra.len() as u64) + r.extra
}

/// The concatenated encodings of a request batch.
pub open spec fn spec_encode_requests(rs: Seq<ScheduleRequestView>) -> Seq<u8>
    decreases rs.len(),
{
    if rs.len() == 0 {
        Seq::empty()
    } else {
        spec_encode_request(rs[0]) + spec_encode_requests(rs.drop_first())
    }
}

/// The canonical encoding of a withdrawal batch: the request count, then
/// each request in order.  This is what a relay signs, together with the
/// nonce.
pub open spec fn spec_encode_payload(rs: Seq<ScheduleRequestView>) -> Seq<u8> {
    spec_le_u64(rs.len() as u64) + spec_encode_requests(rs)
}

proof fn lemma_encode_requests_snoc(rs: Seq<ScheduleRequestView>, r: ScheduleRequestView)
    ensures
        spec_encode_requests(rs.push(r)) == spec_encode_requests(rs) + spec_encode_request(r),
    decreases rs.len(),
{
    if rs.len() == 0 {
        assert(rs.push(r).drop_first() =~= rs);
        assert(spec_encode_requests(rs.push(r)) =~= spec_encode_requests(rs)
            + spec_encode_request(r));
    } else {
        assert(rs.push(r).drop_first() =~= rs.drop_first().push(r));
        lemma_encode_requests_snoc(rs.drop_first(), r);
        assert(spec_encode_requests(rs.push(r)) =~= spec_encode_requests(rs)
            + spec_encode_request(r));
    }
}

/// Appends the canonical encoding of one schedule request.
#[verifier::rlimit(50)]
fn encode_request_into(out: &mut Vec<u8>, r: &ScheduleRequest)
    ensures
        final(out)@ == old(out)@ + spec_encode_request(r@),
{
    out.push(r.asset.network);
    encode_location_into(out, &r.asset.location);
    push_le_u128(out, r.amount);
    encode_location_into(out, &r.destination);
    push_le_u64(out, r.extra.len() as u64);
    let n = r.extra.len();
    let mut i: usize = 0;
    let ghost base = out@;
    while i < n
        invariant
            n == r.extra.len(),
            0 <= i <= n,
            out@ == base + r.extra@.subrange(0, i as int),
        decreases n - i,
    {
        out.push(r.extra[i]);
        proof {
            assert(r.extra@.subrange(0, i + 1) =~= r.extra@.subrange(0, i as int).push(r.extra@[
            i as int]));
        }
        i = i + 1;
    }
    proof {
        assert(r.extra@.subrange(0, n as int) =~= r.extra@);
        assert(out@ =~= old(out)@ + spec_encode_request(r@));
    }
}

/// The canonical encoding of a withdrawal batch as owned bytes: what a relay
/// must sign, together with the nonce, to schedule these requests.
pub fn encode_schedule_payload(requests: &Vec<ScheduleRequest>) -> (r: Vec<u8>)
    ensures
        r@ == spec_encode_payload(request_views(requests@)),
{
    let mut out: Vec<u8> = Vec::new();
    push_le_u64(&mut out, requests.len() as u64);
    let ghost base = out@;
    let ghost rv = request_views(requests@);
    let n = requests.len();
    let mut i: usize = 0;
    proof {
        assert(spec_encode_requests(rv.subrange(0, 0)) =~= Seq::<u8>::empty());
        assert(out@ =~= base + spec_encode_requests(rv.subrange(0, 0)));
    }
    while i < n
        invariant
            n == requests.len(),
            rv == request_views(requests@),
            rv.len() == n,
            0 <= i <= n,
            out@ == base + spec_encode_requests(rv.subrange(0, i as int)),
        decreases n - i,
    {
        proof {
            assert(rv[i as int] == requests@[i as int]@);
            assert(rv.subrange(0, i + 1) =~= rv.subrange(0, i as int).push(rv[i as int]));
            lemma_encode_requests_snoc(rv.subrange(0, i as int), rv[i as int]);
        }
        encode_request_into(&mut out, &requests[i]);
        i = i + 1;
    }
    proof {
        assert(rv.subrange(0, n as int) =~= rv);
        assert(out@ =~= spec_encode_payload(rv));
    }
    out
}

} // verus!
