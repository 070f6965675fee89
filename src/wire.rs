use vstd::prelude::*;
use protobuf::well_known_types::Empty;
use protobuf::Message;

verus! {

/// Every value that one field number carries in a protobuf message, grouped by wire
/// type, each group in the order of the input.
pub struct FieldValues {
    pub varint: Vec<u64>,
    pub fixed32: Vec<u32>,
    pub fixed64: Vec<u64>,
    pub length_delimited: Vec<Vec<u8>>,
}

/// The values of one field, as plain sequences.
pub type FieldView = (Seq<u64>, Seq<u32>, Seq<u64>, Seq<Seq<u8>>);

impl FieldValues {
    pub open spec fn view_tuple(&self) -> FieldView {
        (self.varint@, self.fixed32@, self.fixed64@, self.length_delimited@.map_values(|v: Vec<u8>| v@))
    }
}

/// The values of field `number` in the protobuf message `b`; `None` where `b` is not
/// a well-formed protobuf message.
pub uninterp spec fn wire_field(b: Seq<u8>, number: u32) -> Option<FieldView>;

/// Relies on protobuf's `Message::parse_from_bytes` for `Empty`, a message that
/// declares no field, so that every field of the input is kept among its unknown
/// fields, and on `UnknownFields::get`, which hands back the values of one field
/// number grouped by wire type. The parse fails exactly where the bytes are not a
/// protobuf message, and its outcome depends on the bytes alone.
#[verifier::external_body]
fn read_field(b: &[u8], number: u32) -> (r: Option<FieldValues>)
    ensures
        r is None <==> wire_field(b@, number) is None,
        r matches Some(f) ==> wire_field(b@, number) == Some(f.view_tuple()),
{
    let m = Empty::parse_from_bytes(b).ok()?;
    let v = m.get_unknown_fields().get(number).cloned().unwrap_or_default();
    Some(FieldValues {
        varint: v.varint,
        fixed32: v.fixed32,
        fixed64: v.fixed64,
        length_delimited: v.length_delimited,
    })
}

/// The value of a singular varint field: the last one given, zero where none is;
/// `None` where the field carries a value of another wire type.
pub open spec fn varint_field(f: FieldView) -> Option<u64> {
    if f.1.len() > 0 || f.2.len() > 0 || f.3.len() > 0 {
        None
    } else if f.0.len() == 0 {
        Some(0)
    } else {
        Some(f.0.last())
    }
}

/// The value of a singular length-delimited field: the last one given, `None` inside
/// where none is; `None` where the field carries a value of another wire type.
pub open spec fn delimited_field(f: FieldView) -> Option<Option<Seq<u8>>> {
    if f.0.len() > 0 || f.1.len() > 0 || f.2.len() > 0 {
        None
    } else if f.3.len() == 0 {
        Some(None)
    } else {
        Some(Some(f.3.last()))
    }
}

/// The values of a repeated length-delimited field, in order; `None` where the field
/// carries a value of another wire type.
pub open spec fn repeated_field(f: FieldView) -> Option<Seq<Seq<u8>>> {
    if f.0.len() > 0 || f.1.len() > 0 || f.2.len() > 0 {
        None
    } else {
        Some(f.3)
    }
}

impl FieldValues {
    fn only_varints(&self) -> (r: bool)
        ensures
            r == (self.fixed32@.len() == 0 && self.fixed64@.len() == 0
                && self.length_delimited@.len() == 0),
    {
        self.fixed32.len() == 0 && self.fixed64.len() == 0 && self.length_delimited.len() == 0
    }

    fn only_delimited(&self) -> (r: bool)
        ensures
            r == (self.varint@.len() == 0 && self.fixed32@.len() == 0 && self.fixed64@.len()
                == 0),
    {
        self.varint.len() == 0 && self.fixed32.len() == 0 && self.fixed64.len() == 0
    }

    /// This field read as a singular varint field.
    pub fn as_varint(&self) -> (r: Option<u64>)
        ensures
            r == varint_field(self.view_tuple()),
    {
        if !self.only_varints() {
            None
        } else if self.varint.len() == 0 {
            Some(0)
        } else {
            Some(self.varint[self.varint.len() - 1])
        }
    }

    /// This field read as a singular length-delimited field.
    pub fn as_delimited(&self) -> (r: Option<Option<Vec<u8>>>)
        ensures
            r is Some == delimited_field(self.view_tuple()) is Some,
            r matches Some(Some(v)) ==> delimited_field(self.view_tuple()) == Some(Some(v@)),
            r matches Some(None) ==> delimited_field(self.view_tuple()) == Some(
                None::<Seq<u8>>,
            ),
    {
        if !self.only_delimited() {
            None
        } else if self.length_delimited.len() == 0 {
            Some(None)
        } else {
            let v = self.length_delimited[self.length_delimited.len() - 1].clone();
            assert(v@ =~= self.length_delimited@.last()@);
            Some(Some(v))
        }
    }

    /// This field read as a repeated length-delimited field.
    pub fn as_repeated(&self) -> (r: Option<Vec<Vec<u8>>>)
        ensures
            r is Some == repeated_field(self.view_tuple()) is Some,
            r matches Some(v) ==> repeated_field(self.view_tuple()) == Some(
                v@.map_values(|x: Vec<u8>| x@),
            ),
    {
        if !self.only_delimited() {
            return None;
        }
        let mut out: Vec<Vec<u8>> = Vec::new();
        let mut i: usize = 0;
        while i < self.length_delimited.len()
            invariant
                i <= self.length_delimited@.len(),
                out@.len() == i,
                forall|j: int| 0 <= j < i ==> (#[trigger] out@[j])@ == self.length_delimited@[j]@,
            decreases self.length_delimited@.len() - i,
        {
            let v = self.length_delimited[i].clone();
            assert(v@ =~= self.length_delimited@[i as int]@);
            out.push(v);
            i += 1;
        }
        assert(out@.map_values(|x: Vec<u8>| x@) =~= self.length_delimited@.map_values(
            |x: Vec<u8>| x@,
        ));
        Some(out)
    }
}

/// Reads field `number` of message `b`.
pub fn field(b: &[u8], number: u32) -> (r: Option<FieldValues>)
    ensures
        r is None <==> wire_field(b@, number) is None,
        r matches Some(f) ==> wire_field(b@, number) == Some(f.view_tuple()),
{
    read_field(b, number)
}

} // verus!
