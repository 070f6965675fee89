use vstd::prelude::*;
use vstd::string::StringSliceAdditionalSpecFns;
use vstd::utf8::encode_utf8;
use crate::codec::{ascii_chars, escape, escape_spec, unescape, unescape_spec, DecodeError};
use crate::keys::{raft_log_key, raft_log_key_spec, region_info_key, region_info_key_spec, MAX_KEY_BYTE};
use crate::record::{
    command_spec, decode_command, decode_log_entry, decode_region, entry_spec, region_spec,
    CommandRecord, EntryRecord, RegionRecord,
};

verus! {

/// The text shown for a raw value: `None` where the key holds nothing, else the
/// escaped value.
pub open spec fn value_text_spec(stored: Option<Seq<u8>>) -> Seq<char> {
    match stored {
        None => seq!['N', 'o', 'n', 'e'],
        Some(v) => ascii_chars(escape_spec(v)),
    }
}

/// The text shown for the value stored under a raw key.
pub fn raw_value_text(stored: Option<&[u8]>) -> (r: String)
    ensures
        r@ == value_text_spec(
            match stored {
                Some(v) => Some(v@),
                None => None,
            },
        ),
{
    match stored {
        None => {
            let r = "None".to_owned();
            proof {
                reveal_strlit("None");
                assert(r@ =~= seq!['N', 'o', 'n', 'e']);
            }
            r
        },
        Some(v) => escape(v),
    }
}

/// What a lookup of one raft log entry found.
#[derive(Debug)]
pub enum EntryLookup {
    /// No value is stored under the entry's key.
    NotFound,
    /// A value is stored, but it is no entry envelope.
    Malformed(DecodeError),
    /// The envelope, and the command that its payload holds or why it holds none.
    Found(EntryRecord, Result<CommandRecord, DecodeError>),
}

/// Reads the value stored under a raft log key: not found, an envelope that does
/// not decode, or an envelope and the outcome of decoding its payload.
pub fn inspect_log_entry(stored: Option<&[u8]>) -> (r: EntryLookup)
    ensures
        stored is None <==> r is NotFound,
        stored matches Some(b) ==> match r {
            EntryLookup::NotFound => false,
            EntryLookup::Malformed(e) => entry_spec(b@) is None && e
                == DecodeError::EnvelopeMalformed,
            EntryLookup::Found(entry, command) => {
                &&& entry_spec(b@) == Some(entry.view_tuple())
                &&& command is Ok <==> command_spec(entry.data@) is Some
                &&& command matches Ok(c) ==> command_spec(entry.data@) == Some(c.view_tuple())
                &&& command matches Err(e) ==> e == DecodeError::PayloadMalformed
            },
        },
{
    match stored {
        None => EntryLookup::NotFound,
        Some(b) => match decode_log_entry(b) {
            Err(e) => EntryLookup::Malformed(e),
            Ok(entry) => {
                let command = decode_command(entry.data.as_slice());
                EntryLookup::Found(entry, command)
            },
        },
    }
}

/// Reads the value stored under a region info key: `Ok(None)` where none is stored,
/// `MetadataMalformed` where it does not decode.
pub fn inspect_region(stored: Option<&[u8]>) -> (r: Result<Option<RegionRecord>, DecodeError>)
    ensures
        stored is None ==> r matches Ok(None),
        stored matches Some(b) ==> (r is Ok <==> region_spec(b@) is Some),
        stored matches Some(b) ==> (r matches Ok(g) ==> g matches Some(g) && region_spec(b@)
            == Some(g.view_tuple())),
        r matches Err(e) ==> e == DecodeError::MetadataMalformed,
{
    match stored {
        None => Ok(None),
        Some(b) => match decode_region(b) {
            Ok(g) => Ok(Some(g)),
            Err(e) => Err(e),
        },
    }
}

/// The value of a string of decimal digits.
pub open spec fn decimal_value(s: Seq<u8>) -> int
    decreases s.len(),
{
    if s.len() == 0 {
        0
    } else {
        decimal_value(s.drop_last()) * 10 + (s.last() - 48)
    }
}

pub open spec fn all_digits(s: Seq<u8>) -> bool {
    forall|i: int| 0 <= i < s.len() ==> 48 <= #[trigger] s[i] <= 57
}

/// The digits of a number as written: all of it, or all but one leading `+`.
pub open spec fn digits_of(s: Seq<u8>) -> Seq<u8> {
    if s.len() > 0 && s[0] == 43 {
        s.drop_first()
    } else {
        s
    }
}

/// The number that a non-empty string of decimal digits, after at most one leading
/// `+`, stands for, where it fits in 64 bits.
pub open spec fn number_spec(s: Seq<u8>) -> Option<u64> {
    let d = digits_of(s);
    if d.len() > 0 && all_digits(d) && decimal_value(d) <= u64::MAX {
        Some(decimal_value(d) as u64)
    } else {
        None
    }
}

proof fn lemma_decimal_grows(s: Seq<u8>, j: int)
    requires
        all_digits(s),
        0 <= j <= s.len(),
    ensures
        0 <= decimal_value(s.take(j)) <= decimal_value(s),
    decreases s.len(),
{
    if s.len() > 0 {
        if j == s.len() {
            assert(s.take(j) =~= s);
            lemma_decimal_grows(s.drop_last(), s.len() - 1);
            assert(s.drop_last().take(s.len() - 1) =~= s.drop_last());
        } else {
            lemma_decimal_grows(s.drop_last(), j);
            assert(s.drop_last().take(j) =~= s.take(j));
        }
    } else {
        assert(s.take(j) =~= s);
    }
}

/// Reads a region id, a log index or a limit written in decimal.
pub fn parse_number(text: &str) -> (r: Option<u64>)
    ensures
        r == number_spec(text.spec_bytes()),
{
    let s = text.as_bytes();
    let start: usize = if s.len() > 0 && s[0] == 43 { 1 } else { 0 };
    let ghost d = digits_of(s@);
    assert(d =~= s@.skip(start as int));
    if s.len() == start {
        return None;
    }
    let mut acc: u64 = 0;
    let mut i: usize = start;
    while i < s.len()
        invariant
            start <= i <= s@.len(),
            s@ == text.spec_bytes(),
            d == s@.skip(start as int),
            d == digits_of(text.spec_bytes()),
            d.len() > 0,
            all_digits(d.take(i - start)),
            acc == decimal_value(d.take(i - start)),
        decreases s@.len() - i,
    {
        let c = s[i];
        assert(d[i - start] == c);
        if c < 48 || c > 57 {
            return None;
        }
        proof {
            assert(d.take(i + 1 - start).drop_last() =~= d.take(i - start));
        }
        if acc as u128 * 10 + (c - 48) as u128 > u64::MAX as u128 {
            proof {
                if all_digits(d) {
                    lemma_decimal_grows(d, i + 1 - start);
                }
            }
            return None;
        }
        acc = acc * 10 + (c - 48) as u64;
        i += 1;
    }
    proof {
        assert(d.take(i - start) =~= d);
    }
    Some(acc)
}

/// One inspection that the tool can make.
#[derive(Debug)]
pub enum Request {
    /// The value under a raw key.
    RawValue { key: Vec<u8> },
    /// One entry of a region's raft log.
    LogEntry { region_id: u64, index: u64 },
    /// A region's metadata record.
    RegionInfo { region_id: u64 },
    /// The entries from `lower` on and below `upper`, at most `limit` of them.
    Range { lower: Vec<u8>, upper: Vec<u8>, limit: u64 },
}

/// Why the options name no inspection that can be made.
#[derive(Debug, Clone, Copy, PartialEq, Eq, Structural)]
pub enum RequestError {
    /// A log entry or region info was asked for without a region id.
    MissingRegion,
    /// A region id, log index or limit is no decimal number of 64 bits.
    BadNumber,
    /// A key is no valid escaped text.
    BadEscape,
    /// None of key, index, info or scan start was given.
    NoOperation,
}

/// The options of one run of the tool, as given.
pub struct RequestOptions {
    pub key: Option<String>,
    pub index: Option<String>,
    pub region: Option<String>,
    pub info: bool,
    pub from: Option<String>,
    pub to: Option<String>,
    pub limit: Option<String>,
}

fn parse_region(region: &Option<String>) -> (r: Result<u64, RequestError>)
    ensures
        region is None ==> r == Err::<u64, RequestError>(RequestError::MissingRegion),
        region matches Some(t) ==> match number_spec(encode_utf8(t@)) {
            Some(n) => r == Ok::<u64, RequestError>(n),
            None => r == Err::<u64, RequestError>(RequestError::BadNumber),
        },
{
    match region {
        None => Err(RequestError::MissingRegion),
        Some(t) => match parse_number(t.as_str()) {
            Some(n) => Ok(n),
            None => Err(RequestError::BadNumber),
        },
    }
}

fn unescape_key(text: &String) -> (r: Result<Vec<u8>, RequestError>)
    ensures
        r is Ok <==> unescape_spec(encode_utf8(text@)) is Some,
        r matches Ok(v) ==> unescape_spec(encode_utf8(text@)) == Some(v@),
        r matches Err(e) ==> e == RequestError::BadEscape,
{
    match unescape(text.as_str()) {
        Ok(v) => Ok(v),
        Err(_) => Err(RequestError::BadEscape),
    }
}

/// The region id that the options give, or why they give none.
pub open spec fn region_result(region: Option<String>) -> Result<u64, RequestError> {
    match region {
        None => Err(RequestError::MissingRegion),
        Some(t) => match number_spec(encode_utf8(t@)) {
            Some(n) => Ok(n),
            None => Err(RequestError::BadNumber),
        },
    }
}

/// The bounds and limit of a range scan that the options give, or why they give none:
/// no upper bound stands for the one-byte key `MAX_KEY_BYTE`, no limit for the
/// largest 64-bit number.
pub open spec fn range_result(from: String, to: Option<String>, limit: Option<String>) -> Result<
    (Seq<u8>, Seq<u8>, u64),
    RequestError,
> {
    let upper = match to {
        None => Some(seq![MAX_KEY_BYTE]),
        Some(t) => unescape_spec(encode_utf8(t@)),
    };
    let lim = match limit {
        None => Some(u64::MAX),
        Some(l) => number_spec(encode_utf8(l@)),
    };
    match (unescape_spec(encode_utf8(from@)), upper, lim) {
        (None, _, _) => Err(RequestError::BadEscape),
        (_, None, _) => Err(RequestError::BadEscape),
        (_, _, None) => Err(RequestError::BadNumber),
        (Some(lo), Some(hi), Some(n)) => Ok((lo, hi, n)),
    }
}

/// The inspection that the options ask for. A key comes first, then a log index
/// (with a region), then region info (with a region), then a scan start.
pub fn plan_request(o: &RequestOptions) -> (r: Result<Request, RequestError>)
    ensures
        o.key matches Some(k) ==> match unescape_spec(encode_utf8(k@)) {
            Some(b) => r matches Ok(Request::RawValue { key }) && key@ == b,
            None => r == Err::<Request, RequestError>(RequestError::BadEscape),
        },
        o.key is None ==> (o.index matches Some(i) ==> match region_result(o.region) {
            Err(e) => r == Err::<Request, RequestError>(e),
            Ok(g) => match number_spec(encode_utf8(i@)) {
                None => r == Err::<Request, RequestError>(RequestError::BadNumber),
                Some(n) => r == Ok::<Request, RequestError>(
                    Request::LogEntry { region_id: g, index: n },
                ),
            },
        }),
        o.key is None && o.index is None && o.info ==> match region_result(o.region) {
            Err(e) => r == Err::<Request, RequestError>(e),
            Ok(g) => r == Ok::<Request, RequestError>(Request::RegionInfo { region_id: g }),
        },
        o.key is None && o.index is None && !o.info ==> (o.from matches Some(f) ==> match range_result(
            f,
            o.to,
            o.limit,
        ) {
            Err(e) => r == Err::<Request, RequestError>(e),
            Ok((lo, hi, n)) => r matches Ok(Request::Range { lower, upper, limit }) && lower@
                == lo && upper@ == hi && limit == n,
        }),
        o.key is None && o.index is None && !o.info && o.from is None ==> r == Err::<
            Request,
            RequestError,
        >(RequestError::NoOperation),
{
    if let Some(k) = &o.key {
        let key = unescape_key(k)?;
        return Ok(Request::RawValue { key });
    }
    if let Some(i) = &o.index {
        let region_id = parse_region(&o.region)?;
        let index = match parse_number(i.as_str()) {
            Some(n) => n,
            None => return Err(RequestError::BadNumber),
        };
        return Ok(Request::LogEntry { region_id, index });
    }
    if o.info {
        let region_id = parse_region(&o.region)?;
        return Ok(Request::RegionInfo { region_id });
    }
    match &o.from {
        None => Err(RequestError::NoOperation),
        Some(f) => {
            let lower = unescape_key(f)?;
            let upper = match &o.to {
                None => {
                    let mut v: Vec<u8> = Vec::new();
                    v.push(MAX_KEY_BYTE);
                    proof {
                        assert(v@ =~= seq![MAX_KEY_BYTE]);
                    }
                    v
                },
                Some(t) => unescape_key(t)?,
            };
            let limit = match &o.limit {
                None => u64::MAX,
                Some(l) => match parse_number(l.as_str()) {
                    Some(n) => n,
                    None => return Err(RequestError::BadNumber),
                },
            };
            Ok(Request::Range { lower, upper, limit })
        },
    }
}

/// The key that a log entry or region info request reads.
pub fn request_key(req: &Request) -> (r: Option<Vec<u8>>)
    ensures
        req matches Request::LogEntry { region_id, index } ==> r matches Some(k) && k@
            == raft_log_key_spec(*region_id, *index),
        req matches Request::RegionInfo { region_id } ==> r matches Some(k) && k@
            == region_info_key_spec(*region_id),
        req matches Request::RawValue { key } ==> r matches Some(k) && k@ == key@,
        req is Range ==> r is None,
{
    match req {
        Request::RawValue { key } => {
            let k = key.clone();
            assert(k@ =~= key@);
            Some(k)
        },
        Request::LogEntry { region_id, index } => Some(raft_log_key(*region_id, *index)),
        Request::RegionInfo { region_id } => Some(region_info_key(*region_id)),
        Request::Range { .. } => None,
    }
}

} // verus!
