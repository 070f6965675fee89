use vstd::prelude::*;

verus! {

/// First byte of every key that is local to a store rather than user data.
pub const LOCAL_PREFIX: u8 = 0x01;
/// Second byte of the keys of a region's raft state.
pub const REGION_RAFT_PREFIX: u8 = 0x02;
/// Second byte of the keys of a region's metadata.
pub const REGION_META_PREFIX: u8 = 0x03;
/// Byte between the region id and the log index in a raft log key.
pub const RAFT_LOG_SUFFIX: u8 = 0x01;
/// Byte after the region id in a region info key.
pub const REGION_INFO_SUFFIX: u8 = 0x01;
/// The single byte that serves as upper bound of a scan without one.
pub const MAX_KEY_BYTE: u8 = 0xff;

/// Strict lexicographic order on byte strings, a proper prefix coming first.
pub open spec fn lex_lt(a: Seq<u8>, b: Seq<u8>) -> bool
    decreases a.len(),
{
    if b.len() == 0 {
        false
    } else if a.len() == 0 {
        true
    } else if a[0] != b[0] {
        a[0] < b[0]
    } else {
        lex_lt(a.drop_first(), b.drop_first())
    }
}

/// The eight bytes of `x`, most significant first.
pub open spec fn be_bytes(x: u64) -> Seq<u8> {
    seq![
        ((x >> 56u64) & 0xff) as u8,
        ((x >> 48u64) & 0xff) as u8,
        ((x >> 40u64) & 0xff) as u8,
        ((x >> 32u64) & 0xff) as u8,
        ((x >> 24u64) & 0xff) as u8,
        ((x >> 16u64) & 0xff) as u8,
        ((x >> 8u64) & 0xff) as u8,
        (x & 0xff) as u8,
    ]
}

/// The key of entry `log_index` of the raft log of region `region_id`.
pub open spec fn raft_log_key_spec(region_id: u64, log_index: u64) -> Seq<u8> {
    seq![LOCAL_PREFIX, REGION_RAFT_PREFIX] + be_bytes(region_id) + seq![RAFT_LOG_SUFFIX]
        + be_bytes(log_index)
}

/// The key of the metadata record of region `region_id`.
pub open spec fn region_info_key_spec(region_id: u64) -> Seq<u8> {
    seq![LOCAL_PREFIX, REGION_META_PREFIX] + be_bytes(region_id) + seq![REGION_INFO_SUFFIX]
}

fn push_be_bytes(out: &mut Vec<u8>, x: u64)
    ensures
        final(out)@ == old(out)@ + be_bytes(x),
{
    let ghost start = out@;
    out.push(((x >> 56u64) & 0xff) as u8);
    out.push(((x >> 48u64) & 0xff) as u8);
    out.push(((x >> 40u64) & 0xff) as u8);
    out.push(((x >> 32u64) & 0xff) as u8);
    out.push(((x >> 24u64) & 0xff) as u8);
    out.push(((x >> 16u64) & 0xff) as u8);
    out.push(((x >> 8u64) & 0xff) as u8);
    out.push((x & 0xff) as u8);
    assert(out@ =~= start + be_bytes(x));
}

/// The key under which entry `log_index` of region `region_id`'s raft log is stored.
pub fn raft_log_key(region_id: u64, log_index: u64) -> (r: Vec<u8>)
    ensures
        r@ == raft_log_key_spec(region_id, log_index),
{
    let mut out: Vec<u8> = Vec::new();
    out.push(LOCAL_PREFIX);
    out.push(REGION_RAFT_PREFIX);
    push_be_bytes(&mut out, region_id);
    out.push(RAFT_LOG_SUFFIX);
    push_be_bytes(&mut out, log_index);
    assert(out@ =~= raft_log_key_spec(region_id, log_index));
    out
}

/// The key under which region `region_id`'s metadata record is stored.
pub fn region_info_key(region_id: u64) -> (r: Vec<u8>)
    ensures
        r@ == region_info_key_spec(region_id),
{
    let mut out: Vec<u8> = Vec::new();
    out.push(LOCAL_PREFIX);
    out.push(REGION_META_PREFIX);
    push_be_bytes(&mut out, region_id);
    out.push(REGION_INFO_SUFFIX);
    assert(out@ =~= region_info_key_spec(region_id));
    out
}

proof fn lemma_be_injective(x: u64, y: u64)
    requires
        be_bytes(x) == be_bytes(y),
    ensures
        x == y,
{
    let bx = be_bytes(x);
    let by = be_bytes(y);
    assert(bx[0] == by[0] && bx[1] == by[1] && bx[2] == by[2] && bx[3] == by[3]);
    assert(bx[4] == by[4] && bx[5] == by[5] && bx[6] == by[6] && bx[7] == by[7]);
    assert(((x >> 56u64) & 0xff) < 256 && ((y >> 56u64) & 0xff) < 256) by (bit_vector);
    assert(((x >> 48u64) & 0xff) < 256 && ((y >> 48u64) & 0xff) < 256) by (bit_vector);
    assert(((x >> 40u64) & 0xff) < 256 && ((y >> 40u64) & 0xff) < 256) by (bit_vector);
    assert(((x >> 32u64) & 0xff) < 256 && ((y >> 32u64) & 0xff) < 256) by (bit_vector);
    assert(((x >> 24u64) & 0xff) < 256 && ((y >> 24u64) & 0xff) < 256) by (bit_vector);
    assert(((x >> 16u64) & 0xff) < 256 && ((y >> 16u64) & 0xff) < 256) by (bit_vector);
    assert(((x >> 8u64) & 0xff) < 256 && ((y >> 8u64) & 0xff) < 256) by (bit_vector);
    assert((x & 0xff) < 256 && (y & 0xff) < 256) by (bit_vector);
    assert(x == y) by (bit_vector)
        requires
            (x >> 56u64) & 0xff == (y >> 56u64) & 0xff,
            (x >> 48u64) & 0xff == (y >> 48u64) & 0xff,
            (x >> 40u64) & 0xff == (y >> 40u64) & 0xff,
            (x >> 32u64) & 0xff == (y >> 32u64) & 0xff,
            (x >> 24u64) & 0xff == (y >> 24u64) & 0xff,
            (x >> 16u64) & 0xff == (y >> 16u64) & 0xff,
            (x >> 8u64) & 0xff == (y >> 8u64) & 0xff,
            x & 0xff == y & 0xff,
    ;
}

proof fn lemma_be_order(x: u64, y: u64)
    requires
        x < y,
    ensures
        lex_lt(be_bytes(x), be_bytes(y)),
{
    let bx = be_bytes(x);
    let by = be_bytes(y);
    assert(((x >> 56u64) & 0xff) < 256 && ((y >> 56u64) & 0xff) < 256) by (bit_vector);
    assert(((x >> 48u64) & 0xff) < 256 && ((y >> 48u64) & 0xff) < 256) by (bit_vector);
    assert(((x >> 40u64) & 0xff) < 256 && ((y >> 40u64) & 0xff) < 256) by (bit_vector);
    assert(((x >> 32u64) & 0xff) < 256 && ((y >> 32u64) & 0xff) < 256) by (bit_vector);
    assert(((x >> 24u64) & 0xff) < 256 && ((y >> 24u64) & 0xff) < 256) by (bit_vector);
    assert(((x >> 16u64) & 0xff) < 256 && ((y >> 16u64) & 0xff) < 256) by (bit_vector);
    assert(((x >> 8u64) & 0xff) < 256 && ((y >> 8u64) & 0xff) < 256) by (bit_vector);
    assert((x & 0xff) < 256 && (y & 0xff) < 256) by (bit_vector);
    assert((x >> 56u64) & 0xff < (y >> 56u64) & 0xff || ((x >> 56u64) & 0xff == (y >> 56u64)
        & 0xff && ((x >> 48u64) & 0xff < (y >> 48u64) & 0xff || ((x >> 48u64) & 0xff == (y
        >> 48u64) & 0xff && ((x >> 40u64) & 0xff < (y >> 40u64) & 0xff || ((x >> 40u64) & 0xff
        == (y >> 40u64) & 0xff && ((x >> 32u64) & 0xff < (y >> 32u64) & 0xff || ((x >> 32u64)
        & 0xff == (y >> 32u64) & 0xff && ((x >> 24u64) & 0xff < (y >> 24u64) & 0xff || ((x
        >> 24u64) & 0xff == (y >> 24u64) & 0xff && ((x >> 16u64) & 0xff < (y >> 16u64) & 0xff
        || ((x >> 16u64) & 0xff == (y >> 16u64) & 0xff && ((x >> 8u64) & 0xff < (y >> 8u64)
        & 0xff || ((x >> 8u64) & 0xff == (y >> 8u64) & 0xff && x & 0xff < y & 0xff))))))))))))))
        by (bit_vector)
        requires
            x < y,
    ;
    reveal_with_fuel(lex_lt, 9);
    assert(bx.drop_first() =~= seq![bx[1], bx[2], bx[3], bx[4], bx[5], bx[6], bx[7]]);
    assert(by.drop_first() =~= seq![by[1], by[2], by[3], by[4], by[5], by[6], by[7]]);
    assert(bx.drop_first().drop_first() =~= seq![bx[2], bx[3], bx[4], bx[5], bx[6], bx[7]]);
    assert(by.drop_first().drop_first() =~= seq![by[2], by[3], by[4], by[5], by[6], by[7]]);
    assert(bx.drop_first().drop_first().drop_first() =~= seq![bx[3], bx[4], bx[5], bx[6], bx[7]]);
    assert(by.drop_first().drop_first().drop_first() =~= seq![by[3], by[4], by[5], by[6], by[7]]);
}

proof fn lemma_lex_common_prefix(p: Seq<u8>, a: Seq<u8>, b: Seq<u8>)
    ensures
        lex_lt(p + a, p + b) == lex_lt(a, b),
    decreases p.len(),
{
    if p.len() > 0 {
        assert((p + a).drop_first() =~= p.drop_first() + a);
        assert((p + b).drop_first() =~= p.drop_first() + b);
        lemma_lex_common_prefix(p.drop_first(), a, b);
    } else {
        assert(p + a =~= a);
        assert(p + b =~= b);
    }
}

/// Distinct pairs of region id and log index have distinct raft log keys.
pub proof fn lemma_raft_log_key_injective(r1: u64, i1: u64, r2: u64, i2: u64)
    requires
        r1 != r2 || i1 != i2,
    ensures
        raft_log_key_spec(r1, i1) != raft_log_key_spec(r2, i2),
{
    let k1 = raft_log_key_spec(r1, i1);
    let k2 = raft_log_key_spec(r2, i2);
    if k1 == k2 {
        assert(k1.subrange(2, 10) =~= be_bytes(r1));
        assert(k2.subrange(2, 10) =~= be_bytes(r2));
        assert(k1.subrange(11, 19) =~= be_bytes(i1));
        assert(k2.subrange(11, 19) =~= be_bytes(i2));
        lemma_be_injective(r1, r2);
        lemma_be_injective(i1, i2);
    }
}

/// Distinct region ids have distinct region info keys.
pub proof fn lemma_region_info_key_injective(r1: u64, r2: u64)
    requires
        r1 != r2,
    ensures
        region_info_key_spec(r1) != region_info_key_spec(r2),
{
    let k1 = region_info_key_spec(r1);
    let k2 = region_info_key_spec(r2);
    if k1 == k2 {
        assert(k1.subrange(2, 10) =~= be_bytes(r1));
        assert(k2.subrange(2, 10) =~= be_bytes(r2));
        lemma_be_injective(r1, r2);
    }
}

/// Every raft log key sorts before every region info key, so the two families of
/// keys neither meet nor interleave.
pub proof fn lemma_key_families_apart(r1: u64, i1: u64, r2: u64)
    ensures
        lex_lt(raft_log_key_spec(r1, i1), region_info_key_spec(r2)),
        raft_log_key_spec(r1, i1) != region_info_key_spec(r2),
{
    let k1 = raft_log_key_spec(r1, i1);
    let k2 = region_info_key_spec(r2);
    reveal_with_fuel(lex_lt, 2);
    assert(k1[0] == k2[0] && k1[1] < k2[1]);
    assert(k1.drop_first()[0] == k1[1] && k2.drop_first()[0] == k2[1]);
}

/// Within one region, a smaller log index has a smaller raft log key.
pub proof fn lemma_raft_log_key_order(region_id: u64, i1: u64, i2: u64)
    requires
        i1 < i2,
    ensures
        lex_lt(raft_log_key_spec(region_id, i1), raft_log_key_spec(region_id, i2)),
{
    let p = seq![LOCAL_PREFIX, REGION_RAFT_PREFIX] + be_bytes(region_id) + seq![RAFT_LOG_SUFFIX];
    lemma_be_order(i1, i2);
    lemma_lex_common_prefix(p, be_bytes(i1), be_bytes(i2));
}

/// Every key of either family sorts before the one-byte key `MAX_KEY_BYTE`, the
/// upper bound of a scan that is given none.
pub proof fn lemma_keys_below_sentinel(region_id: u64, log_index: u64)
    ensures
        lex_lt(raft_log_key_spec(region_id, log_index), seq![MAX_KEY_BYTE]),
        lex_lt(region_info_key_spec(region_id), seq![MAX_KEY_BYTE]),
{
    reveal_with_fuel(lex_lt, 1);
    assert(raft_log_key_spec(region_id, log_index)[0] == LOCAL_PREFIX);
    assert(region_info_key_spec(region_id)[0] == LOCAL_PREFIX);
}

} // verus!
