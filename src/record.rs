use vstd::prelude::*;
use crate::codec::DecodeError;
use crate::wire::{
    delimited_field, field, repeated_field, varint_field, wire_field, FieldValues, FieldView,
};

verus! {

/// The bytes of an optional length-delimited value, empty where it is absent.
pub open spec fn or_empty(v: Option<Seq<u8>>) -> Seq<u8> {
    match v {
        Some(x) => x,
        None => Seq::empty(),
    }
}

fn take_or_empty(v: Option<Vec<u8>>) -> (r: Vec<u8>)
    ensures
        r@ == or_empty(
            match v {
                Some(x) => Some(x@),
                None => None,
            },
        ),
{
    match v {
        Some(x) => x,
        None => Vec::new(),
    }
}

/// The envelope of one raft log entry: field 1 the entry type, 2 the term, 3 the
/// index, all varints, and 4 the payload bytes.
#[derive(Debug)]
pub struct EntryRecord {
    pub entry_type: u64,
    pub term: u64,
    pub index: u64,
    pub data: Vec<u8>,
}

pub type EntryView = (u64, u64, u64, Seq<u8>);

impl EntryRecord {
    pub open spec fn view_tuple(&self) -> EntryView {
        (self.entry_type, self.term, self.index, self.data@)
    }
}

/// The envelope that fields 1 to 4 make up.
pub open spec fn entry_of_fields(f1: FieldView, f2: FieldView, f3: FieldView, f4: FieldView) -> Option<
    EntryView,
> {
    match (varint_field(f1), varint_field(f2), varint_field(f3), delimited_field(f4)) {
        (Some(t), Some(term), Some(index), Some(d)) => Some((t, term, index, or_empty(d))),
        _ => None,
    }
}

/// The envelope that the bytes `b` hold, if they hold one.
pub open spec fn entry_spec(b: Seq<u8>) -> Option<EntryView> {
    match (wire_field(b, 1), wire_field(b, 2), wire_field(b, 3), wire_field(b, 4)) {
        (Some(f1), Some(f2), Some(f3), Some(f4)) => entry_of_fields(f1, f2, f3, f4),
        _ => None,
    }
}

/// The envelope that the read fields 1 to 4 make up; `EnvelopeMalformed` where one
/// of them carries a value of the wrong wire type.
pub fn entry_from_fields(
    f1: &FieldValues,
    f2: &FieldValues,
    f3: &FieldValues,
    f4: &FieldValues,
) -> (r: Result<EntryRecord, DecodeError>)
    ensures
        r is Ok <==> entry_of_fields(
            f1.view_tuple(),
            f2.view_tuple(),
            f3.view_tuple(),
            f4.view_tuple(),
        ) is Some,
        r matches Ok(e) ==> entry_of_fields(
            f1.view_tuple(),
            f2.view_tuple(),
            f3.view_tuple(),
            f4.view_tuple(),
        ) == Some(e.view_tuple()),
        r matches Err(e) ==> e == DecodeError::EnvelopeMalformed,
{
    match (f1.as_varint(), f2.as_varint(), f3.as_varint(), f4.as_delimited()) {
        (Some(entry_type), Some(term), Some(index), Some(d)) => {
            let data = take_or_empty(d);
            Ok(EntryRecord { entry_type, term, index, data })
        },
        _ => Err(DecodeError::EnvelopeMalformed),
    }
}

/// Decodes the envelope of a raft log entry; `EnvelopeMalformed` where the bytes
/// hold none.
pub fn decode_log_entry(b: &[u8]) -> (r: Result<EntryRecord, DecodeError>)
    ensures
        r is Ok <==> entry_spec(b@) is Some,
        r matches Ok(e) ==> entry_spec(b@) == Some(e.view_tuple()),
        r matches Err(e) ==> e == DecodeError::EnvelopeMalformed,
{
    let f1 = match field(b, 1) {
        Some(f) => f,
        None => return Err(DecodeError::EnvelopeMalformed),
    };
    let f2 = match field(b, 2) {
        Some(f) => f,
        None => return Err(DecodeError::EnvelopeMalformed),
    };
    let f3 = match field(b, 3) {
        Some(f) => f,
        None => return Err(DecodeError::EnvelopeMalformed),
    };
    let f4 = match field(b, 4) {
        Some(f) => f,
        None => return Err(DecodeError::EnvelopeMalformed),
    };
    entry_from_fields(&f1, &f2, &f3, &f4)
}

/// The command that a log entry's payload carries: field 1 the header, 2 the
/// requests, 3 the admin request and 4 the status request, each an embedded message
/// kept as its bytes.
#[derive(Debug)]
pub struct CommandRecord {
    pub header: Option<Vec<u8>>,
    pub requests: Vec<Vec<u8>>,
    pub admin_request: Option<Vec<u8>>,
    pub status_request: Option<Vec<u8>>,
}

pub type CommandView = (Option<Seq<u8>>, Seq<Seq<u8>>, Option<Seq<u8>>, Option<Seq<u8>>);

pub open spec fn opt_view(v: Option<Vec<u8>>) -> Option<Seq<u8>> {
    match v {
        Some(x) => Some(x@),
        None => None,
    }
}

impl CommandRecord {
    pub open spec fn view_tuple(&self) -> CommandView {
        (
            opt_view(self.header),
            self.requests@.map_values(|x: Vec<u8>| x@),
            opt_view(self.admin_request),
            opt_view(self.status_request),
        )
    }
}

/// The command that fields 1 to 4 make up.
pub open spec fn command_of_fields(
    f1: FieldView,
    f2: FieldView,
    f3: FieldView,
    f4: FieldView,
) -> Option<CommandView> {
    match (delimited_field(f1), repeated_field(f2), delimited_field(f3), delimited_field(f4)) {
        (Some(h), Some(rs), Some(a), Some(s)) => Some((h, rs, a, s)),
        _ => None,
    }
}

/// The command that the bytes `b` hold, if they hold one.
/// The command that the bytes `b` hold, if they hold one whose embedded messages
/// are all well-formed protobuf messages.
pub open spec fn command_spec(b: Seq<u8>) -> Option<CommandView> {
    match (wire_field(b, 1), wire_field(b, 2), wire_field(b, 3), wire_field(b, 4)) {
        (Some(f1), Some(f2), Some(f3), Some(f4)) => match command_of_fields(f1, f2, f3, f4) {
            Some(c) => if nested_ok(c) {
                Some(c)
            } else {
                None
            },
            None => None,
        },
        _ => None,
    }
}

/// Whether `b` is a well-formed protobuf message.
pub open spec fn is_message(b: Seq<u8>) -> bool {
    wire_field(b, 1) is Some
}

pub open spec fn opt_is_message(v: Option<Seq<u8>>) -> bool {
    match v {
        Some(b) => is_message(b),
        None => true,
    }
}

/// Whether every message embedded in a command is well-formed.
pub open spec fn nested_ok(c: CommandView) -> bool {
    &&& opt_is_message(c.0)
    &&& forall|i: int| 0 <= i < c.1.len() ==> is_message(#[trigger] c.1[i])
    &&& opt_is_message(c.2)
    &&& opt_is_message(c.3)
}

fn check_message(b: &[u8]) -> (r: bool)
    ensures
        r == is_message(b@),
{
    match field(b, 1) {
        Some(_) => true,
        None => false,
    }
}

fn check_opt_message(v: &Option<Vec<u8>>) -> (r: bool)
    ensures
        r == opt_is_message(opt_view(*v)),
{
    match v {
        Some(b) => check_message(b.as_slice()),
        None => true,
    }
}

/// Whether every message embedded in `c` is well-formed.
pub fn command_nested_ok(c: &CommandRecord) -> (r: bool)
    ensures
        r == nested_ok(c.view_tuple()),
{
    if !check_opt_message(&c.header) || !check_opt_message(&c.admin_request)
        || !check_opt_message(&c.status_request) {
        return false;
    }
    let mut i: usize = 0;
    while i < c.requests.len()
        invariant
            i <= c.requests@.len(),
            forall|j: int| 0 <= j < i ==> is_message(#[trigger] c.view_tuple().1[j]),
        decreases c.requests@.len() - i,
    {
        if !check_message(c.requests[i].as_slice()) {
            assert(c.view_tuple().1[i as int] == c.requests@[i as int]@);
            return false;
        }
        assert(c.view_tuple().1[i as int] == c.requests@[i as int]@);
        i += 1;
    }
    true
}

/// The command that the read fields 1 to 4 make up; `PayloadMalformed` where one of
/// them carries a value of the wrong wire type.
pub fn command_from_fields(
    f1: &FieldValues,
    f2: &FieldValues,
    f3: &FieldValues,
    f4: &FieldValues,
) -> (r: Result<CommandRecord, DecodeError>)
    ensures
        r is Ok <==> command_of_fields(
            f1.view_tuple(),
            f2.view_tuple(),
            f3.view_tuple(),
            f4.view_tuple(),
        ) is Some,
        r matches Ok(c) ==> command_of_fields(
            f1.view_tuple(),
            f2.view_tuple(),
            f3.view_tuple(),
            f4.view_tuple(),
        ) == Some(c.view_tuple()),
        r matches Err(e) ==> e == DecodeError::PayloadMalformed,
{
    match (f1.as_delimited(), f2.as_repeated(), f3.as_delimited(), f4.as_delimited()) {
        (Some(header), Some(requests), Some(admin_request), Some(status_request)) => {
            Ok(CommandRecord { header, requests, admin_request, status_request })
        },
        _ => Err(DecodeError::PayloadMalformed),
    }
}

/// Decodes the command in a log entry's payload; `PayloadMalformed` where the bytes
/// hold none, or where a message embedded in it is malformed.
pub fn decode_command(b: &[u8]) -> (r: Result<CommandRecord, DecodeError>)
    ensures
        r is Ok <==> command_spec(b@) is Some,
        r matches Ok(c) ==> command_spec(b@) == Some(c.view_tuple()),
        r matches Err(e) ==> e == DecodeError::PayloadMalformed,
{
    let f1 = match field(b, 1) {
        Some(f) => f,
        None => return Err(DecodeError::PayloadMalformed),
    };
    let f2 = match field(b, 2) {
        Some(f) => f,
        None => return Err(DecodeError::PayloadMalformed),
    };
    let f3 = match field(b, 3) {
        Some(f) => f,
        None => return Err(DecodeError::PayloadMalformed),
    };
    let f4 = match field(b, 4) {
        Some(f) => f,
        None => return Err(DecodeError::PayloadMalformed),
    };
    let c = command_from_fields(&f1, &f2, &f3, &f4)?;
    if command_nested_ok(&c) {
        Ok(c)
    } else {
        Err(DecodeError::PayloadMalformed)
    }
}

/// Two varint fields 1 and 2: a region epoch (configuration version, version) or a
/// peer (id, store id).
pub open spec fn pair_of_fields(f1: FieldView, f2: FieldView) -> Option<(u64, u64)> {
    match (varint_field(f1), varint_field(f2)) {
        (Some(a), Some(b)) => Some((a, b)),
        _ => None,
    }
}

/// The pair of varint fields 1 and 2 that the message `b` holds, if it holds one.
pub open spec fn pair_spec(b: Seq<u8>) -> Option<(u64, u64)> {
    match (wire_field(b, 1), wire_field(b, 2)) {
        (Some(f1), Some(f2)) => pair_of_fields(f1, f2),
        _ => None,
    }
}

/// The pairs that a sequence of messages holds, if each holds one.
pub open spec fn pairs_spec(s: Seq<Seq<u8>>) -> Option<Seq<(u64, u64)>>
    decreases s.len(),
{
    if s.len() == 0 {
        Some(Seq::empty())
    } else {
        match (pairs_spec(s.drop_last()), pair_spec(s.last())) {
            (Some(ps), Some(p)) => Some(ps.push(p)),
            _ => None,
        }
    }
}

/// The pair that the read fields 1 and 2 make up.
pub fn pair_from_fields(f1: &FieldValues, f2: &FieldValues) -> (r: Option<(u64, u64)>)
    ensures
        r == pair_of_fields(f1.view_tuple(), f2.view_tuple()),
{
    match (f1.as_varint(), f2.as_varint()) {
        (Some(a), Some(b)) => Some((a, b)),
        _ => None,
    }
}

fn decode_pair(b: &[u8]) -> (r: Option<(u64, u64)>)
    ensures
        r == pair_spec(b@),
{
    let f1 = match field(b, 1) {
        Some(f) => f,
        None => return None,
    };
    let f2 = match field(b, 2) {
        Some(f) => f,
        None => return None,
    };
    pair_from_fields(&f1, &f2)
}

/// The metadata of a region: field 1 its id, 2 and 3 the start and end of its key
/// range, 4 its epoch and 5 its peers.
#[derive(Debug)]
pub struct RegionRecord {
    pub id: u64,
    pub start_key: Vec<u8>,
    pub end_key: Vec<u8>,
    pub region_epoch: Option<(u64, u64)>,
    pub peers: Vec<(u64, u64)>,
}

pub type RegionView = (u64, Seq<u8>, Seq<u8>, Option<(u64, u64)>, Seq<(u64, u64)>);

impl RegionRecord {
    pub open spec fn view_tuple(&self) -> RegionView {
        (self.id, self.start_key@, self.end_key@, self.region_epoch, self.peers@)
    }
}

/// The top level of a region record that fields 1 to 5 make up, its epoch and peers
/// still as message bytes.
pub open spec fn region_of_fields(
    f1: FieldView,
    f2: FieldView,
    f3: FieldView,
    f4: FieldView,
    f5: FieldView,
) -> Option<(u64, Seq<u8>, Seq<u8>, Option<Seq<u8>>, Seq<Seq<u8>>)> {
    match (
        varint_field(f1),
        delimited_field(f2),
        delimited_field(f3),
        delimited_field(f4),
        repeated_field(f5),
    ) {
        (Some(id), Some(sk), Some(ek), Some(ep), Some(ps)) => Some(
            (id, or_empty(sk), or_empty(ek), ep, ps),
        ),
        _ => None,
    }
}

/// The region record that the bytes `b` hold, if they hold one.
pub open spec fn region_spec(b: Seq<u8>) -> Option<RegionView> {
    match (wire_field(b, 1), wire_field(b, 2), wire_field(b, 3), wire_field(b, 4), wire_field(b, 5)) {
        (Some(f1), Some(f2), Some(f3), Some(f4), Some(f5)) => match region_of_fields(
            f1,
            f2,
            f3,
            f4,
            f5,
        ) {
            Some((id, sk, ek, ep, ps)) => {
                let epoch = match ep {
                    None => Some(None),
                    Some(e) => match pair_spec(e) {
                        Some(p) => Some(Some(p)),
                        None => None,
                    },
                };
                match (epoch, pairs_spec(ps)) {
                    (Some(e), Some(peers)) => Some((id, sk, ek, e, peers)),
                    _ => None,
                }
            },
            None => None,
        },
        _ => None,
    }
}

/// Decodes a region record; `MetadataMalformed` where the bytes hold none.
pub fn decode_region(b: &[u8]) -> (r: Result<RegionRecord, DecodeError>)
    ensures
        r is Ok <==> region_spec(b@) is Some,
        r matches Ok(g) ==> region_spec(b@) == Some(g.view_tuple()),
        r matches Err(e) ==> e == DecodeError::MetadataMalformed,
{
    let f1 = match field(b, 1) {
        Some(f) => f,
        None => return Err(DecodeError::MetadataMalformed),
    };
    let f2 = match field(b, 2) {
        Some(f) => f,
        None => return Err(DecodeError::MetadataMalformed),
    };
    let f3 = match field(b, 3) {
        Some(f) => f,
        None => return Err(DecodeError::MetadataMalformed),
    };
    let f4 = match field(b, 4) {
        Some(f) => f,
        None => return Err(DecodeError::MetadataMalformed),
    };
    let f5 = match field(b, 5) {
        Some(f) => f,
        None => return Err(DecodeError::MetadataMalformed),
    };
    let (id, sk, ek, ep, ps) = match (
        f1.as_varint(),
        f2.as_delimited(),
        f3.as_delimited(),
        f4.as_delimited(),
        f5.as_repeated(),
    ) {
        (Some(id), Some(sk), Some(ek), Some(ep), Some(ps)) => (id, sk, ek, ep, ps),
        _ => return Err(DecodeError::MetadataMalformed),
    };
    let region_epoch = match ep {
        None => None,
        Some(e) => match decode_pair(e.as_slice()) {
            Some(p) => Some(p),
            None => {
                assert(delimited_field(f4.view_tuple()) == Some(Some(e@)));
                assert(region_spec(b@) is None);
                return Err(DecodeError::MetadataMalformed);
            },
        },
    };
    let ghost pv = ps@.map_values(|x: Vec<u8>| x@);
    let ghost head = (id, or_empty(opt_view(sk)), or_empty(opt_view(ek)), region_epoch);
    assert(region_spec(b@) == match pairs_spec(pv) {
        Some(p) => Some((head.0, head.1, head.2, head.3, p)),
        None => None::<RegionView>,
    });
    let mut peers: Vec<(u64, u64)> = Vec::new();
    let mut i: usize = 0;
    while i < ps.len()
        invariant
            i <= ps@.len(),
            pv == ps@.map_values(|x: Vec<u8>| x@),
            pairs_spec(pv.take(i as int)) == Some(peers@),
            region_spec(b@) == match pairs_spec(pv) {
                Some(p) => Some((head.0, head.1, head.2, head.3, p)),
                None => None::<RegionView>,
            },
        decreases ps@.len() - i,
    {
        proof {
            assert(pv.take(i + 1).drop_last() =~= pv.take(i as int));
        }
        match decode_pair(ps[i].as_slice()) {
            Some(p) => peers.push(p),
            None => {
                proof {
                    lemma_pairs_prefix_fails(pv, i as int + 1);
                }
                return Err(DecodeError::MetadataMalformed);
            },
        }
        i += 1;
    }
    proof {
        assert(pv.take(i as int) =~= pv);
    }
    let start_key = take_or_empty(sk);
    let end_key = take_or_empty(ek);
    Ok(RegionRecord { id, start_key, end_key, region_epoch, peers })
}

proof fn lemma_pairs_prefix_fails(s: Seq<Seq<u8>>, k: int)
    requires
        0 <= k <= s.len(),
        pairs_spec(s.take(k)) is None,
    ensures
        pairs_spec(s) is None,
    decreases s.len() - k,
{
    if k < s.len() {
        assert(s.take(k + 1).drop_last() =~= s.take(k));
        lemma_pairs_prefix_fails(s, k + 1);
    } else {
        assert(s.take(k) =~= s);
    }
}

} // verus!
