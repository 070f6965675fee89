use vstd::prelude::*;
use vstd::string::StringSliceAdditionalSpecFns;
use vstd::utf8::{encode_utf8, is_ascii_chars, is_ascii_chars_encode_utf8};

verus! {

/// Why a stored value or an escaped text could not be read.
#[derive(Debug, Clone, Copy, PartialEq, Eq, Structural)]
pub enum DecodeError {
    /// The bytes are not a log entry envelope.
    EnvelopeMalformed,
    /// The envelope is sound but its payload is not a command.
    PayloadMalformed,
    /// The bytes are not a region record.
    MetadataMalformed,
    /// The text holds a backslash that starts no valid escape.
    InvalidEscape,
}

pub const BACKSLASH: u8 = 92;

/// The escaped form of one byte: the backslash doubled, other printable ASCII as it
/// is, and every other byte a backslash with three octal digits.
pub open spec fn escape_byte(c: u8) -> Seq<u8> {
    if c == BACKSLASH {
        seq![BACKSLASH, BACKSLASH]
    } else if 0x20 <= c < 0x7f {
        seq![c]
    } else {
        seq![BACKSLASH, (48 + c / 64) as u8, (48 + (c / 8) % 8) as u8, (48 + c % 8) as u8]
    }
}

/// The escaped form of a byte string: each byte escaped in turn.
pub open spec fn escape_spec(b: Seq<u8>) -> Seq<u8>
    decreases b.len(),
{
    if b.len() == 0 {
        Seq::empty()
    } else {
        escape_byte(b[0]) + escape_spec(b.drop_first())
    }
}

/// The characters of an ASCII byte string.
pub open spec fn ascii_chars(b: Seq<u8>) -> Seq<char> {
    b.map_values(|c: u8| c as char)
}

pub open spec fn is_octal_digit(d: u8) -> bool {
    48 <= d <= 55
}

pub open spec fn hex_value(d: u8) -> Option<u8> {
    if 48 <= d <= 57 {
        Some((d - 48) as u8)
    } else if 97 <= d <= 102 {
        Some((d - 87) as u8)
    } else if 65 <= d <= 70 {
        Some((d - 55) as u8)
    } else {
        None
    }
}

/// The byte that the escape sequence at the start of `s` stands for, with its length;
/// `s` starts with a backslash.
pub open spec fn escape_unit(s: Seq<u8>) -> Option<(u8, int)> {
    if s.len() < 2 {
        None
    } else if s[1] == 110 {
        Some((10u8, 2))
    } else if s[1] == 114 {
        Some((13u8, 2))
    } else if s[1] == 116 {
        Some((9u8, 2))
    } else if s[1] == 34 || s[1] == BACKSLASH {
        Some((s[1], 2))
    } else if s[1] == 120 {
        if s.len() >= 4 && hex_value(s[2]) is Some && hex_value(s[3]) is Some {
            Some(((hex_value(s[2])->0 * 16 + hex_value(s[3])->0) as u8, 4))
        } else {
            None
        }
    } else if is_octal_digit(s[1]) && s[1] <= 51 && s.len() >= 4 && is_octal_digit(s[2])
        && is_octal_digit(s[3]) {
        Some((((s[1] - 48) * 64 + (s[2] - 48) * 8 + (s[3] - 48)) as u8, 4))
    } else {
        None
    }
}

/// The byte and length of the first unit of `s`: a plain byte or an escape sequence.
pub open spec fn first_unit(s: Seq<u8>) -> Option<(u8, int)> {
    if s[0] != BACKSLASH {
        Some((s[0], 1))
    } else {
        escape_unit(s)
    }
}

/// The bytes that an escaped text stands for; `None` where it holds an invalid escape.
pub open spec fn unescape_spec(s: Seq<u8>) -> Option<Seq<u8>>
    decreases s.len(),
{
    if s.len() == 0 {
        Some(Seq::empty())
    } else {
        match first_unit(s) {
            None => None,
            Some((c, n)) => if 1 <= n <= s.len() {
                match unescape_spec(s.subrange(n, s.len() as int)) {
                    None => None,
                    Some(t) => Some(seq![c] + t),
                }
            } else {
                None
            },
        }
    }
}

proof fn lemma_escape_byte_ascii(c: u8)
    ensures
        1 <= escape_byte(c).len() <= 4,
        forall|i: int| 0 <= i < escape_byte(c).len() ==> escape_byte(c)[i] < 128,
{
}

proof fn lemma_escape_append(a: Seq<u8>, c: u8)
    ensures
        escape_spec(a.push(c)) == escape_spec(a) + escape_byte(c),
    decreases a.len(),
{
    if a.len() == 0 {
        assert(a.push(c).drop_first() =~= Seq::<u8>::empty());
        reveal_with_fuel(escape_spec, 2);
        assert(escape_spec(a.push(c)) =~= escape_byte(c));
    } else {
        assert(a.push(c).drop_first() =~= a.drop_first().push(c));
        lemma_escape_append(a.drop_first(), c);
        assert(escape_spec(a.push(c)) =~= escape_spec(a) + escape_byte(c));
    }
}

proof fn lemma_escape_ascii(b: Seq<u8>)
    ensures
        forall|i: int| 0 <= i < escape_spec(b).len() ==> escape_spec(b)[i] < 128,
    decreases b.len(),
{
    if b.len() > 0 {
        lemma_escape_byte_ascii(b[0]);
        lemma_escape_ascii(b.drop_first());
        let e = escape_byte(b[0]);
        let r = escape_spec(b.drop_first());
        assert forall|i: int| 0 <= i < escape_spec(b).len() implies escape_spec(b)[i] < 128 by {
            if i < e.len() {
                assert(escape_spec(b)[i] == e[i]);
            } else {
                assert(escape_spec(b)[i] == r[i - e.len()]);
            }
        }
    }
}

proof fn lemma_unit_of_escape(c: u8, rest: Seq<u8>)
    ensures
        first_unit(escape_byte(c) + rest) == Some((c, escape_byte(c).len() as int)),
{
    let s = escape_byte(c) + rest;
    if !(c == BACKSLASH || (0x20 <= c < 0x7f)) {
        assert(s[0] == BACKSLASH && s[1] == (48 + c / 64) as u8 && s[2] == (48 + (c / 8) % 8) as u8
            && s[3] == (48 + c % 8) as u8);
        assert(c == (c / 64) * 64 + ((c / 8) % 8) * 8 + c % 8) by (nonlinear_arith);
    } else {
        assert(s[0] == escape_byte(c)[0]);
        if escape_byte(c).len() == 2 {
            assert(s[1] == escape_byte(c)[1]);
        }
    }
}

// Unescaping the escaped bytes of a byte string gives back that byte string.
proof fn lemma_unescape_escape(b: Seq<u8>)
    ensures
        unescape_spec(escape_spec(b)) == Some(b),
    decreases b.len(),
{
    if b.len() > 0 {
        let e = escape_byte(b[0]);
        let r = escape_spec(b.drop_first());
        lemma_escape_byte_ascii(b[0]);
        lemma_unit_of_escape(b[0], r);
        lemma_unescape_escape(b.drop_first());
        assert((e + r).subrange(e.len() as int, (e + r).len() as int) =~= r);
        assert(seq![b[0]] + b.drop_first() =~= b);
    }
}

/// `o` with `p` put in front of what it holds.
pub open spec fn prepend(p: Seq<u8>, o: Option<Seq<u8>>) -> Option<Seq<u8>> {
    match o {
        Some(t) => Some(p + t),
        None => None,
    }
}

/// The escaped, printable form of `data`: printable ASCII stands as it is, but for
/// the backslash, which is doubled, and every other byte becomes a backslash with
/// three octal digits.
pub fn escape(data: &[u8]) -> (r: String)
    ensures
        r@ == ascii_chars(escape_spec(data@)),
{
    let mut out: Vec<u8> = Vec::new();
    let mut i: usize = 0;
    while i < data.len()
        invariant
            i <= data.len(),
            out@ == escape_spec(data@.take(i as int)),
        decreases data.len() - i,
    {
        let c = data[i];
        proof {
            lemma_escape_append(data@.take(i as int), c);
            assert(data@.take(i + 1) =~= data@.take(i as int).push(c));
        }
        push_escaped(&mut out, c);
        i += 1;
    }
    proof {
        assert(data@.take(data.len() as int) =~= data@);
        lemma_escape_ascii(data@);
    }
    ascii_string(out)
}

fn push_escaped(out: &mut Vec<u8>, c: u8)
    ensures
        final(out)@ == old(out)@ + escape_byte(c),
{
    let ghost start = out@;
    if c == BACKSLASH {
        out.push(BACKSLASH);
        out.push(BACKSLASH);
    } else if 0x20 <= c && c < 0x7f {
        out.push(c);
    } else {
        out.push(BACKSLASH);
        out.push(48 + c / 64);
        out.push(48 + (c / 8) % 8);
        out.push(48 + c % 8);
    }
    assert(out@ =~= start + escape_byte(c));
}

/// Relies on String::from_utf8: bytes that are all ASCII are valid UTF-8, and the
/// string holds one character per byte.
#[verifier::external_body]
fn ascii_string(v: Vec<u8>) -> (r: String)
    requires
        forall|i: int| 0 <= i < v@.len() ==> v@[i] < 128,
    ensures
        r@ == ascii_chars(v@),
{
    match String::from_utf8(v) {
        Ok(s) => s,
        Err(_) => String::new(),
    }
}

fn hex_digit(d: u8) -> (r: Option<u8>)
    ensures
        r == hex_value(d),
{
    if 48 <= d && d <= 57 {
        Some(d - 48)
    } else if 97 <= d && d <= 102 {
        Some(d - 87)
    } else if 65 <= d && d <= 70 {
        Some(d - 55)
    } else {
        None
    }
}

/// The first unit of `s` from position `i` on, with its length.
fn next_unit(s: &[u8], i: usize) -> (r: Option<(u8, usize)>)
    requires
        i < s@.len(),
    ensures
        r is Some == first_unit(s@.skip(i as int)) is Some,
        r matches Some((c, n)) ==> first_unit(s@.skip(i as int)) == Some((c, n as int)) && 1
            <= n <= s@.len() - i,
{
    let ghost t = s@.skip(i as int);
    assert(t[0] == s[i as int]);
    if s[i] != BACKSLASH {
        return Some((s[i], 1));
    }
    if s.len() - i < 2 {
        return None;
    }
    let d = s[i + 1];
    assert(t[1] == d);
    if d == 110 {
        Some((10, 2))
    } else if d == 114 {
        Some((13, 2))
    } else if d == 116 {
        Some((9, 2))
    } else if d == 34 || d == BACKSLASH {
        Some((d, 2))
    } else if s.len() - i < 4 {
        None
    } else {
        let d2 = s[i + 2];
        let d3 = s[i + 3];
        assert(t[2] == d2 && t[3] == d3);
        if d == 120 {
            match (hex_digit(d2), hex_digit(d3)) {
                (Some(h), Some(l)) => Some((h * 16 + l, 4)),
                _ => None,
            }
        } else if 48 <= d && d <= 51 && 48 <= d2 && d2 <= 55 && 48 <= d3 && d3 <= 55 {
            Some(((d - 48) * 64 + (d2 - 48) * 8 + (d3 - 48), 4))
        } else {
            None
        }
    }
}

/// The bytes that an escaped text stands for: the inverse of `escape`, which also
/// reads `\xHH` with two hex digits and `\n`, `\r`, `\t`, `\"` for text typed by hand. A backslash that starts no valid escape gives
/// `InvalidEscape`.
pub fn unescape(text: &str) -> (r: Result<Vec<u8>, DecodeError>)
    ensures
        r is Ok <==> unescape_spec(text.spec_bytes()) is Some,
        r matches Ok(v) ==> unescape_spec(text.spec_bytes()) == Some(v@),
        r is Err ==> r == Err::<Vec<u8>, DecodeError>(DecodeError::InvalidEscape),
{
    let s = text.as_bytes();
    let mut out: Vec<u8> = Vec::new();
    let mut i: usize = 0;
    proof {
        assert(s@.skip(0) =~= s@);
        match unescape_spec(s@) {
            Some(u) => assert(Seq::<u8>::empty() + u =~= u),
            None => {},
        }
    }
    while i < s.len()
        invariant
            i <= s@.len(),
            s@ == text.spec_bytes(),
            unescape_spec(s@) == prepend(out@, unescape_spec(s@.skip(i as int))),
        decreases s@.len() - i,
    {
        match next_unit(s, i) {
            None => {
                return Err(DecodeError::InvalidEscape);
            },
            Some((c, n)) => {
                proof {
                    let t = s@.skip(i as int);
                    assert(t.subrange(n as int, t.len() as int) =~= s@.skip(i + n));
                    assert(out@.push(c) =~= out@ + seq![c]);
                    match unescape_spec(s@.skip(i + n)) {
                        Some(u) => assert(out@ + (seq![c] + u) =~= out@.push(c) + u),
                        None => {},
                    }
                }
                out.push(c);
                i = i + n;
            },
        }
    }
    proof {
        assert(s@.skip(i as int) =~= Seq::<u8>::empty());
        assert(out@ + Seq::<u8>::empty() =~= out@);
    }
    Ok(out)
}

/// Unescaping the text that `escape` makes of a byte string gives back that byte
/// string, for every byte string, the empty one included.
pub proof fn lemma_round_trip(b: Seq<u8>)
    ensures
        unescape_spec(encode_utf8(ascii_chars(escape_spec(b)))) == Some(b),
{
    let e = escape_spec(b);
    let cs = ascii_chars(e);
    lemma_escape_ascii(b);
    assert forall|i: int| 0 <= i < cs.len() implies '\0' <= #[trigger] cs[i] <= '\u{7f}' by {
        assert(cs[i] == e[i] as char);
    }
    is_ascii_chars_encode_utf8(cs);
    assert forall|i: int| 0 <= i < e.len() implies #[trigger] encode_utf8(cs)[i] == e[i] by {
        assert(cs[i] == e[i] as char);
    }
    assert(encode_utf8(cs) =~= e);
    lemma_unescape_escape(b);
}

/// Every byte outside printable ASCII escapes to the same width: a backslash and three
/// octal digits; a printable byte stands for itself, but for the backslash.
pub proof fn lemma_escape_width(c: u8)
    ensures
        !(0x20 <= c < 0x7f) ==> escape_byte(c).len() == 4 && escape_byte(c)[0] == BACKSLASH
            && forall|i: int| 1 <= i < 4 ==> is_octal_digit(#[trigger] escape_byte(c)[i]),
        0x20 <= c < 0x7f && c != BACKSLASH ==> escape_byte(c) == seq![c],
{
}

} // verus!
