//! The registration payload of an operator: type-length-value fields.
use crate::amounts::lesser;
use crate::encoding::{
    be_bytes, byte_range, lemma_be_bytes_injective, lemma_be_bytes_len, push_all, to_be,
};
use vstd::math::min;
use vstd::prelude::*;
use vstd::utf8::encode_utf8;

verus! {

/// Field type: how many competitions the operator adjudicates at once.
pub const TLV_MAX_CAPACITY: u8 = 0x01;

/// Field type: where the operator's service is reached.
pub const TLV_API_ENDPOINT: u8 = 0x02;

/// Field type: the scorer kinds that the operator supports.
pub const TLV_SUPPORTED_SCORERS: u8 = 0x03;

/// What a field carries of a value: as many bytes as its length can tell.
pub open spec fn carried(value: Seq<u8>) -> Seq<u8> {
    value.take(lesser(value.len() as int, 0xffff))
}

/// One field: its type, the length of what it carries in two bytes, and exactly that
/// many bytes of the value.
pub open spec fn tlv(tlv_type: u8, value: Seq<u8>) -> Seq<u8> {
    seq![tlv_type] + be_bytes(carried(value).len(), 2) + carried(value)
}

/// A field that is left out where its value is empty.
pub open spec fn optional_tlv(tlv_type: u8, value: Seq<u8>) -> Seq<u8> {
    if value.len() == 0 {
        Seq::empty()
    } else {
        tlv(tlv_type, value)
    }
}

/// The payload: the capacity, then the endpoint and the scorers if given.
pub open spec fn payload_of(max_capacity: u32, api_endpoint: Seq<u8>, supported_scorers: Seq<u8>) -> Seq<
    u8,
> {
    tlv(TLV_MAX_CAPACITY, be_bytes(max_capacity as nat, 4)) + optional_tlv(
        TLV_API_ENDPOINT,
        api_endpoint,
    ) + optional_tlv(TLV_SUPPORTED_SCORERS, supported_scorers)
}

/// Appends one field. A value that is too long for its length is cut off, so that what
/// follows can still be read.
pub fn write_tlv(buf: &mut Vec<u8>, tlv_type: u8, value: &[u8])
    ensures
        final(buf)@ == old(buf)@ + tlv(tlv_type, value@),
{
    buf.push(tlv_type);
    let len: usize = if value.len() <= 0xffff {
        value.len()
    } else {
        0xffff
    };
    let prefix = to_be(len as u64, 2);
    push_all(buf, prefix.as_slice());
    for i in 0..len
        invariant
            len <= value@.len(),
            buf@ == old(buf)@ + seq![tlv_type] + prefix@ + value@.take(i as int),
    {
        buf.push(value[i]);
        proof {
            assert(value@.take(i as int).push(value@[i as int]) =~= value@.take(i + 1));
            assert(buf@ =~= old(buf)@ + seq![tlv_type] + prefix@ + value@.take(i + 1));
        }
    }
    proof {
        assert(buf@ =~= old(buf)@ + tlv(tlv_type, value@));
    }
}

/// Builds the registration payload of an operator. The capacity is always there;
/// an empty endpoint or scorer list is left out.
pub fn competitions_registration_payload(
    max_capacity: u32,
    api_endpoint: &str,
    supported_scorers: &str,
) -> (payload: Vec<u8>)
    ensures
        payload@ == payload_of(
            max_capacity,
            encode_utf8(api_endpoint@),
            encode_utf8(supported_scorers@),
        ),
{
    let mut payload: Vec<u8> = Vec::new();
    let capacity = to_be(max_capacity as u64, 4);
    write_tlv(&mut payload, TLV_MAX_CAPACITY, capacity.as_slice());
    let endpoint = api_endpoint.as_bytes();
    if endpoint.len() > 0 {
        write_tlv(&mut payload, TLV_API_ENDPOINT, endpoint);
    }
    let scorers = supported_scorers.as_bytes();
    if scorers.len() > 0 {
        write_tlv(&mut payload, TLV_SUPPORTED_SCORERS, scorers);
    }
    proof {
        assert(payload@ =~= payload_of(
            max_capacity,
            encode_utf8(api_endpoint@),
            encode_utf8(supported_scorers@),
        ));
    }
    payload
}

proof fn lemma_tlv_splits(ta: u8, a: Seq<u8>, ra: Seq<u8>, tb: u8, b: Seq<u8>, rb: Seq<u8>)
    requires
        tlv(ta, a) + ra == tlv(tb, b) + rb,
    ensures
        ta == tb,
        carried(a) == carried(b),
        ra == rb,
{
    let (s, t) = (tlv(ta, a) + ra, tlv(tb, b) + rb);
    let (va, vb) = (carried(a), carried(b));
    lemma_be_bytes_len(va.len(), 2);
    lemma_be_bytes_len(vb.len(), 2);
    assert(s[0] == ta && t[0] == tb);
    assert(be_bytes(va.len(), 2) =~= s.subrange(1, 3));
    assert(be_bytes(vb.len(), 2) =~= t.subrange(1, 3));
    reveal_with_fuel(byte_range, 3);
    lemma_be_bytes_injective(va.len(), vb.len(), 2);
    let end = 3 + va.len() as int;
    assert(va =~= s.subrange(3, end));
    assert(vb =~= t.subrange(3, end));
    assert(ra =~= s.skip(end));
    assert(rb =~= t.skip(end));
}

/// A payload can be read back: the bytes determine the capacity and what is carried of
/// the endpoint and of the scorers, which is all of them wherever they fit their
/// lengths.
pub proof fn payload_is_unambiguous(
    capacity_a: u32,
    endpoint_a: Seq<u8>,
    scorers_a: Seq<u8>,
    capacity_b: u32,
    endpoint_b: Seq<u8>,
    scorers_b: Seq<u8>,
)
    requires
        payload_of(capacity_a, endpoint_a, scorers_a) == payload_of(
            capacity_b,
            endpoint_b,
            scorers_b,
        ),
    ensures
        capacity_a == capacity_b,
        carried(endpoint_a) == carried(endpoint_b),
        carried(scorers_a) == carried(scorers_b),
        endpoint_a.len() <= 0xffff && endpoint_b.len() <= 0xffff ==> endpoint_a == endpoint_b,
        scorers_a.len() <= 0xffff && scorers_b.len() <= 0xffff ==> scorers_a == scorers_b,
{
    let (ca, cb) = (be_bytes(capacity_a as nat, 4), be_bytes(capacity_b as nat, 4));
    lemma_be_bytes_len(capacity_a as nat, 4);
    lemma_be_bytes_len(capacity_b as nat, 4);
    assert(carried(ca) =~= ca && carried(cb) =~= cb);
    lemma_fitting_is_carried(endpoint_a);
    lemma_fitting_is_carried(endpoint_b);
    lemma_fitting_is_carried(scorers_a);
    lemma_fitting_is_carried(scorers_b);
    let (ea, eb) = (
        optional_tlv(TLV_API_ENDPOINT, endpoint_a),
        optional_tlv(TLV_API_ENDPOINT, endpoint_b),
    );
    let (sa, sb) = (
        optional_tlv(TLV_SUPPORTED_SCORERS, scorers_a),
        optional_tlv(TLV_SUPPORTED_SCORERS, scorers_b),
    );
    assert(payload_of(capacity_a, endpoint_a, scorers_a) =~= tlv(TLV_MAX_CAPACITY, ca) + (ea + sa));
    assert(payload_of(capacity_b, endpoint_b, scorers_b) =~= tlv(TLV_MAX_CAPACITY, cb) + (eb + sb));
    lemma_tlv_splits(TLV_MAX_CAPACITY, ca, ea + sa, TLV_MAX_CAPACITY, cb, eb + sb);
    reveal_with_fuel(byte_range, 5);
    lemma_be_bytes_injective(capacity_a as nat, capacity_b as nat, 4);
    let (a, b) = (ea + sa, eb + sb);
    if endpoint_a.len() > 0 {
        assert(a[0] == TLV_API_ENDPOINT);
    } else if scorers_a.len() > 0 {
        assert(a[0] == TLV_SUPPORTED_SCORERS);
    }
    if endpoint_b.len() > 0 {
        assert(b[0] == TLV_API_ENDPOINT);
    } else if scorers_b.len() > 0 {
        assert(b[0] == TLV_SUPPORTED_SCORERS);
    }
    if endpoint_a.len() > 0 {
        lemma_tlv_splits(TLV_API_ENDPOINT, endpoint_a, sa, TLV_API_ENDPOINT, endpoint_b, sb);
    } else {
        assert(a =~= sa);
        assert(b =~= sb);
        assert(endpoint_a =~= endpoint_b);
    }
    if scorers_a.len() > 0 {
        assert(sb.len() > 0);
        assert(sa =~= sa + Seq::<u8>::empty());
        assert(sb =~= sb + Seq::<u8>::empty());
        lemma_tlv_splits(
            TLV_SUPPORTED_SCORERS,
            scorers_a,
            Seq::empty(),
            TLV_SUPPORTED_SCORERS,
            scorers_b,
            Seq::empty(),
        );
    } else {
        assert(scorers_a =~= scorers_b);
    }
}

proof fn lemma_fitting_is_carried(value: Seq<u8>)
    ensures
        value.len() <= 0xffff ==> carried(value) == value,
{
    if value.len() <= 0xffff {
        assert(carried(value) =~= value);
    }
}

/// What a payload consists of, byte for byte: the capacity as type one in four bytes,
/// most significant first; then, where they are given, the endpoint as type two and the
/// scorers as type three. A length is two bytes, most significant first, and a value that
/// does not fit is cut to what its length can tell.
pub proof fn a_payload_lists_its_fields(
    max_capacity: u32,
    api_endpoint: Seq<u8>,
    supported_scorers: Seq<u8>,
)
    ensures
        ({
            let c = max_capacity as int;
            let (e, s) = (
                api_endpoint.take(min(api_endpoint.len() as int, 65_535)),
                supported_scorers.take(min(supported_scorers.len() as int, 65_535)),
            );
            payload_of(max_capacity, api_endpoint, supported_scorers) == seq![
                1u8,
                0,
                4,
                (c / 16_777_216) as u8,
                ((c / 65_536) % 256) as u8,
                ((c / 256) % 256) as u8,
                (c % 256) as u8,
            ] + (if e.len() > 0 {
                seq![2u8, (e.len() / 256) as u8, (e.len() % 256) as u8] + e
            } else {
                Seq::empty()
            }) + (if s.len() > 0 {
                seq![3u8, (s.len() / 256) as u8, (s.len() % 256) as u8] + s
            } else {
                Seq::empty()
            })
        }),
{
    let c = max_capacity as nat;
    reveal_with_fuel(be_bytes, 5);
    let capacity = be_bytes(c, 4);
    assert(capacity =~= seq![
        (c / 16_777_216) as u8,
        ((c / 65_536) % 256) as u8,
        ((c / 256) % 256) as u8,
        (c % 256) as u8,
    ]) by {
        assert(c / 256 / 256 == c / 65_536);
        assert(c / 256 / 256 / 256 == c / 16_777_216);
        assert((c / 16_777_216) % 256 == c / 16_777_216);
    }
    assert(carried(capacity) =~= capacity);
    lemma_field_bytes(1, capacity);
    lemma_field_bytes(2, api_endpoint);
    lemma_field_bytes(3, supported_scorers);
    let (e, s) = (carried(api_endpoint), carried(supported_scorers));
    assert(payload_of(max_capacity, api_endpoint, supported_scorers) =~= seq![
        1u8,
        0,
        4,
        (c / 16_777_216) as u8,
        ((c / 65_536) % 256) as u8,
        ((c / 256) % 256) as u8,
        (c % 256) as u8,
    ] + (if e.len() > 0 {
        seq![2u8, (e.len() / 256) as u8, (e.len() % 256) as u8] + e
    } else {
        Seq::empty()
    }) + (if s.len() > 0 {
        seq![3u8, (s.len() / 256) as u8, (s.len() % 256) as u8] + s
    } else {
        Seq::empty()
    }));
}

proof fn lemma_field_bytes(tlv_type: u8, value: Seq<u8>)
    ensures
        tlv(tlv_type, value) == seq![
            tlv_type,
            (carried(value).len() / 256) as u8,
            (carried(value).len() % 256) as u8,
        ] + carried(value),
{
    let n = carried(value).len();
    reveal_with_fuel(be_bytes, 3);
    assert(n / 256 % 256 == n / 256);
    assert(be_bytes(n, 2) =~= seq![(n / 256) as u8, (n % 256) as u8]);
    assert(tlv(tlv_type, value) =~= seq![tlv_type, (n / 256) as u8, (n % 256) as u8] + carried(
        value,
    ));
}

/// What an operator registers with, byte for byte; and a field is its type, its length in
/// two bytes, most significant first, and as much of its value as that length can tell.
pub proof fn a_registration_is_written_field_by_field(
    max_capacity: u32,
    api_endpoint: &str,
    supported_scorers: &str,
    payload: Vec<u8>,
    buf: &mut Vec<u8>,
    tlv_type: u8,
    value: &[u8],
    done: (),
)
    requires
        call_ensures(
            competitions_registration_payload,
            (max_capacity, api_endpoint, supported_scorers),
            payload,
        ),
        call_ensures(write_tlv, (buf, tlv_type, value), done),
    ensures
        ({
            let c = max_capacity as int;
            let (endpoint, scorers) = (
                encode_utf8(api_endpoint@),
                encode_utf8(supported_scorers@),
            );
            let e = endpoint.take(min(endpoint.len() as int, 65_535));
            let s = scorers.take(min(scorers.len() as int, 65_535));
            payload@ == seq![
                1u8,
                0,
                4,
                (c / 16_777_216) as u8,
                ((c / 65_536) % 256) as u8,
                ((c / 256) % 256) as u8,
                (c % 256) as u8,
            ] + (if e.len() > 0 {
                seq![2u8, (e.len() / 256) as u8, (e.len() % 256) as u8] + e
            } else {
                Seq::empty()
            }) + (if s.len() > 0 {
                seq![3u8, (s.len() / 256) as u8, (s.len() % 256) as u8] + s
            } else {
                Seq::empty()
            })
        }),
        ({
            let n = min(value@.len() as int, 65_535);
            final(buf)@ == old(buf)@ + seq![tlv_type, (n / 256) as u8, (n % 256) as u8]
                + value@.take(n)
        }),
{
    a_payload_lists_its_fields(
        max_capacity,
        encode_utf8(api_endpoint@),
        encode_utf8(supported_scorers@),
    );
    lemma_field_bytes(tlv_type, value@);
    let n = min(value@.len() as int, 65_535);
    assert(final(buf)@ =~= old(buf)@ + seq![tlv_type, (n / 256) as u8, (n % 256) as u8]
        + value@.take(n));
}

} // verus!
