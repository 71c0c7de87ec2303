//! Storage for protobuf fields that were not recognized during decoding.
//!
//! Every message keeps an [`UnknownFieldSet`]: an ordered, lazily allocated
//! mapping from field number to the raw wire shape that was read for it.
//! Storing unrecognized fields and re-emitting them on encode is what keeps a
//! decode/re-encode cycle from discarding unknown data, as the protobuf
//! specification requires.

use vstd::prelude::*;

use crate::encoding::{
    decode_key, decode_varint, encode_key, encode_varint, encoded_len_key, encoded_len_varint,
    group_skip_spec, key_decode, key_encoding, le32_encoding, le32_value, le64_encoding,
    le64_value, put_slice, put_u32_le, put_u64_le, skip_field, varint_decode, varint_encoding,
    ReadBuf, WireType,
};
use crate::error::DecodeError;

verus! {

/// One of the four storable wire shapes of a field, together with its
/// payload.  The variant alone determines the wire type (and so the exact
/// bytes) used on re-encode; no semantic type information is kept.
#[derive(Clone, Debug, PartialEq, Eq)]
pub enum UnknownFieldData {
    Varint(u64),
    SixtyFourBit(u64),
    LengthDelimited(Vec<u8>),
    ThirtyTwoBit(u32),
}

/// The mathematical value of an [`UnknownFieldData`].
pub enum UnknownFieldDataView {
    Varint(u64),
    SixtyFourBit(u64),
    LengthDelimited(Seq<u8>),
    ThirtyTwoBit(u32),
}

impl View for UnknownFieldData {
    type V = UnknownFieldDataView;

    open spec fn view(&self) -> UnknownFieldDataView {
        match self {
            UnknownFieldData::Varint(value) => UnknownFieldDataView::Varint(*value),
            UnknownFieldData::SixtyFourBit(value) => UnknownFieldDataView::SixtyFourBit(*value),
            UnknownFieldData::LengthDelimited(bytes) => UnknownFieldDataView::LengthDelimited(
                bytes@,
            ),
            UnknownFieldData::ThirtyTwoBit(value) => UnknownFieldDataView::ThirtyTwoBit(*value),
        }
    }
}

/// A field number together with the raw wire value stored for it.
#[derive(Clone, Debug, PartialEq, Eq)]
pub struct UnknownField {
    pub tag: u32,
    pub data: UnknownFieldData,
}

/// The mathematical value of an [`UnknownField`].
pub struct UnknownFieldView {
    pub tag: u32,
    pub data: UnknownFieldDataView,
}

impl View for UnknownField {
    type V = UnknownFieldView;

    open spec fn view(&self) -> UnknownFieldView {
        UnknownFieldView { tag: self.tag, data: self.data@ }
    }
}

/// The wire type a stored value re-encodes with.
pub open spec fn data_wire_type(data: UnknownFieldDataView) -> WireType {
    match data {
        UnknownFieldDataView::Varint(_) => WireType::Varint,
        UnknownFieldDataView::SixtyFourBit(_) => WireType::SixtyFourBit,
        UnknownFieldDataView::LengthDelimited(_) => WireType::LengthDelimited,
        UnknownFieldDataView::ThirtyTwoBit(_) => WireType::ThirtyTwoBit,
    }
}

/// The payload bytes a stored value re-encodes to, after its key.
pub open spec fn payload_encoding(data: UnknownFieldDataView) -> Seq<u8> {
    match data {
        UnknownFieldDataView::Varint(value) => varint_encoding(value),
        UnknownFieldDataView::SixtyFourBit(value) => le64_encoding(value),
        UnknownFieldDataView::LengthDelimited(bytes) => varint_encoding((bytes.len() as u64))
            + bytes,
        UnknownFieldDataView::ThirtyTwoBit(value) => le32_encoding(value),
    }
}

/// The full wire encoding of one stored field: its key, then its payload.
pub open spec fn field_encoding(tag: u32, data: UnknownFieldDataView) -> Seq<u8> {
    key_encoding(tag, data_wire_type(data)) + payload_encoding(data)
}

/// The outcome of parsing one field's payload, the key having already been
/// consumed: a storable value and its consumed length, a group skipped
/// without storing anything, or a malformed field.
pub enum FieldParse {
    Value(UnknownFieldDataView, int),
    Skipped(int),
    Malformed,
}

/// Parses the payload of a field whose key announced `wire_type`, from the
/// front of `s`.  Varints must terminate and fit 64 bits; fixed-width shapes
/// need their exact byte count; a length-delimited payload needs its full
/// announced length; a start-group marker skips its whole body and stores
/// nothing; a bare end-group marker is malformed.
pub open spec fn parse_field_spec(tag: u32, wire_type: WireType, s: Seq<u8>) -> FieldParse {
    match wire_type {
        WireType::Varint => match varint_decode(s) {
            None => FieldParse::Malformed,
            Some((value, n)) => if value <= u64::MAX {
                FieldParse::Value(UnknownFieldDataView::Varint(value as u64), n)
            } else {
                FieldParse::Malformed
            },
        },
        WireType::SixtyFourBit => if s.len() >= 8 {
            FieldParse::Value(UnknownFieldDataView::SixtyFourBit(le64_value(s)), 8)
        } else {
            FieldParse::Malformed
        },
        WireType::ThirtyTwoBit => if s.len() >= 4 {
            FieldParse::Value(UnknownFieldDataView::ThirtyTwoBit(le32_value(s)), 4)
        } else {
            FieldParse::Malformed
        },
        WireType::LengthDelimited => match varint_decode(s) {
            None => FieldParse::Malformed,
            Some((len, n)) => if n + len <= s.len() {
                FieldParse::Value(
                    UnknownFieldDataView::LengthDelimited(s.subrange(n, n + len)),
                    n + len,
                )
            } else {
                FieldParse::Malformed
            },
        },
        WireType::StartGroup => match group_skip_spec(tag, s) {
            None => FieldParse::Malformed,
            Some(n) => FieldParse::Skipped(n),
        },
        WireType::EndGroup => FieldParse::Malformed,
    }
}

impl UnknownField {
    /// Parses one field's payload from the cursor, the key (tag and wire
    /// type) having already been consumed by the caller.  Returns the stored
    /// field, or `None` when the field was a group, whose body is skipped and
    /// never preserved.
    pub fn parse(tag: u32, wire_type: WireType, buf: &mut ReadBuf) -> (r: Result<
        Option<UnknownField>,
        DecodeError,
    >)
        requires
            old(buf).wf(),
        ensures
            final(buf).wf(),
            final(buf).data == old(buf).data,
            old(buf).pos <= final(buf).pos,
            match r {
                Ok(Some(field)) => field@.tag == tag && parse_field_spec(
                    tag,
                    wire_type,
                    old(buf).remaining_bytes(),
                ) == FieldParse::Value(field@.data, final(buf).pos - old(buf).pos),
                Ok(None) => parse_field_spec(tag, wire_type, old(buf).remaining_bytes())
                    == FieldParse::Skipped(final(buf).pos - old(buf).pos),
                Err(_) => parse_field_spec(tag, wire_type, old(buf).remaining_bytes())
                    is Malformed,
            },
    {
        let ghost s = old(buf).remaining_bytes();
        match wire_type {
            WireType::Varint => match decode_varint(buf) {
                Err(e) => Err(e),
                Ok(value) => Ok(
                    Some(UnknownField { tag, data: UnknownFieldData::Varint(value) }),
                ),
            },
            WireType::SixtyFourBit => {
                if buf.remaining() < 8 {
                    Err(DecodeError::new("buffer underflow".to_string()))
                } else {
                    let value = buf.get_u64_le();
                    Ok(Some(UnknownField { tag, data: UnknownFieldData::SixtyFourBit(value) }))
                }
            },
            WireType::ThirtyTwoBit => {
                if buf.remaining() < 4 {
                    Err(DecodeError::new("buffer underflow".to_string()))
                } else {
                    let value = buf.get_u32_le();
                    Ok(Some(UnknownField { tag, data: UnknownFieldData::ThirtyTwoBit(value) }))
                }
            },
            WireType::LengthDelimited => {
                let ghost pos0 = buf.pos;
                match decode_varint(buf) {
                    Err(e) => {
                        proof {
                            vstd::std_specs::vec::axiom_spec_len(&buf.data);
                            crate::encoding::lemma_varint_decode_bounds(s);
                        }
                        Err(e)
                    },
                    Ok(len) => {
                        let rem = buf.remaining();
                        if len <= rem as u64 {
                            let ghost n = buf.pos - pos0;
                            let bytes = buf.read_bytes(len as usize);
                            proof {
                                assert(bytes@ =~= s.subrange(n, n + len));
                            }
                            Ok(
                                Some(
                                    UnknownField {
                                        tag,
                                        data: UnknownFieldData::LengthDelimited(bytes),
                                    },
                                ),
                            )
                        } else {
                            Err(DecodeError::new("buffer underflow".to_string()))
                        }
                    },
                }
            },
            WireType::StartGroup => match skip_field(WireType::StartGroup, tag, buf) {
                Err(e) => Err(e),
                Ok(_) => Ok(None),
            },
            WireType::EndGroup => Err(
                DecodeError::new("unexpected end group tag".to_string()),
            ),
        }
    }

    /// Appends this field's wire encoding to `buf`: its key, reconstructed
    /// from the stored variant, then its payload, in the exact inverse layout
    /// of [`UnknownField::parse`].
    pub fn encode(&self, buf: &mut Vec<u8>)
        ensures
            final(buf)@ == old(buf)@ + field_encoding(self@.tag, self@.data),
    {
        match &self.data {
            UnknownFieldData::Varint(value) => {
                encode_key(self.tag, WireType::Varint, buf);
                encode_varint(*value, buf);
            },
            UnknownFieldData::SixtyFourBit(value) => {
                encode_key(self.tag, WireType::SixtyFourBit, buf);
                put_u64_le(*value, buf);
            },
            UnknownFieldData::LengthDelimited(bytes) => {
                encode_key(self.tag, WireType::LengthDelimited, buf);
                encode_varint(bytes.len() as u64, buf);
                put_slice(bytes, buf);
            },
            UnknownFieldData::ThirtyTwoBit(value) => {
                encode_key(self.tag, WireType::ThirtyTwoBit, buf);
                put_u32_le(*value, buf);
            },
        }
        proof {
            assert(buf@ =~= old(buf)@ + field_encoding(self@.tag, self@.data));
        }
    }

    /// The byte length [`UnknownField::encode`] would produce, without
    /// writing: key length plus payload length for this variant.
    pub fn encoded_len(&self) -> (n: usize)
        requires
            field_encoding(self@.tag, self@.data).len() <= usize::MAX,
        ensures
            n == field_encoding(self@.tag, self@.data).len(),
    {
        match &self.data {
            UnknownFieldData::Varint(value) => encoded_len_key(self.tag, WireType::Varint)
                + encoded_len_varint(*value),
            UnknownFieldData::SixtyFourBit(_) => encoded_len_key(
                self.tag,
                WireType::SixtyFourBit,
            ) + 8,
            UnknownFieldData::LengthDelimited(bytes) => {
                let key_len = encoded_len_key(self.tag, WireType::LengthDelimited);
                let prefix_len = encoded_len_varint(bytes.len() as u64);
                key_len + prefix_len + bytes.len()
            },
            UnknownFieldData::ThirtyTwoBit(_) => encoded_len_key(self.tag, WireType::ThirtyTwoBit)
                + 4,
        }
    }
}

/// Entries are in strictly ascending field-number order, so each field
/// number occurs at most once.
pub open spec fn sorted_by_tag(entries: Seq<UnknownFieldView>) -> bool {
    forall|i: int, j: int|
        0 <= i < j < entries.len() ==> entries[i].tag < entries[j].tag
}

/// The entry stored for `tag`, if any.
pub open spec fn lookup_entry(entries: Seq<UnknownFieldView>, tag: u32) -> Option<
    UnknownFieldDataView,
>
    decreases entries.len(),
{
    if entries.len() == 0 {
        None
    } else if entries[0].tag == tag {
        Some(entries[0].data)
    } else {
        lookup_entry(entries.skip(1), tag)
    }
}

/// Ascending-order insertion with last-write-wins overwrite: the result of
/// storing `field` among `entries`.
pub open spec fn insert_entry(entries: Seq<UnknownFieldView>, field: UnknownFieldView) -> Seq<
    UnknownFieldView,
>
    decreases entries.len(),
{
    if entries.len() == 0 {
        seq![field]
    } else if field.tag < entries[0].tag {
        seq![field] + entries
    } else if field.tag == entries[0].tag {
        seq![field] + entries.skip(1)
    } else {
        seq![entries[0]] + insert_entry(entries.skip(1), field)
    }
}

/// Inserting at the scan position found by the executable code agrees with
/// the recursive [`insert_entry`]: an equal tag overwrites in place, any
/// other tag is spliced in at its ordered position.
proof fn lemma_insert_entry_at(entries: Seq<UnknownFieldView>, field: UnknownFieldView, i: int)
    requires
        0 <= i <= entries.len(),
        forall|j: int| 0 <= j < i ==> entries[j].tag < field.tag,
        i < entries.len() ==> entries[i].tag >= field.tag,
    ensures
        (i < entries.len() && entries[i].tag == field.tag) ==> insert_entry(entries, field)
            == entries.update(i, field),
        !(i < entries.len() && entries[i].tag == field.tag) ==> insert_entry(entries, field)
            == entries.insert(i, field),
    decreases i,
{
    if i == 0 {
        if entries.len() == 0 {
            assert(insert_entry(entries, field) =~= entries.insert(0, field));
        } else if field.tag < entries[0].tag {
            assert(seq![field] + entries =~= entries.insert(0, field));
        } else {
            assert(entries[0].tag == field.tag);
            assert(seq![field] + entries.skip(1) =~= entries.update(0, field));
        }
    } else {
        assert(entries[0].tag < field.tag);
        let tail = entries.skip(1);
        assert forall|j: int| 0 <= j < i - 1 implies tail[j].tag < field.tag by {
            assert(tail[j] == entries[j + 1]);
        }
        lemma_insert_entry_at(tail, field, i - 1);
        if i < entries.len() && entries[i].tag == field.tag {
            assert(tail.update(i - 1, field) =~= entries.update(i, field).skip(1));
            assert(seq![entries[0]] + tail.update(i - 1, field) =~= entries.update(i, field));
        } else {
            assert(seq![entries[0]] + tail.insert(i - 1, field) =~= entries.insert(i, field));
        }
    }
}

/// Insertion stores exactly `field` under its own tag and leaves every other
/// tag's entry unchanged: the last write to a field number wins and touches
/// nothing else.
pub proof fn lemma_lookup_insert(
    entries: Seq<UnknownFieldView>,
    field: UnknownFieldView,
    tag: u32,
)
    ensures
        tag == field.tag ==> lookup_entry(insert_entry(entries, field), tag) == Some(field.data),
        tag != field.tag ==> lookup_entry(insert_entry(entries, field), tag) == lookup_entry(
            entries,
            tag,
        ),
    decreases entries.len(),
{
    let out = insert_entry(entries, field);
    if entries.len() == 0 {
        if tag != field.tag {
            assert(out.skip(1) =~= entries);
        }
    } else if field.tag < entries[0].tag {
        assert(out.skip(1) =~= entries);
    } else if field.tag == entries[0].tag {
        if tag != field.tag {
            assert(out.skip(1) =~= entries.skip(1));
            assert(lookup_entry(entries, tag) == lookup_entry(entries.skip(1), tag));
        }
    } else {
        lemma_lookup_insert(entries.skip(1), field, tag);
        assert(out[0] == entries[0]);
        assert(out.skip(1) =~= insert_entry(entries.skip(1), field));
    }
}

/// The wire encoding of a whole set: the encodings of its entries,
/// concatenated in storage order (ascending field number).
pub open spec fn set_encoding(entries: Seq<UnknownFieldView>) -> Seq<u8>
    decreases entries.len(),
{
    if entries.len() == 0 {
        Seq::empty()
    } else {
        field_encoding(entries[0].tag, entries[0].data) + set_encoding(entries.skip(1))
    }
}

/// Appending one entry appends its field encoding.
pub proof fn lemma_set_encoding_push(entries: Seq<UnknownFieldView>, field: UnknownFieldView)
    ensures
        set_encoding(entries.push(field)) == set_encoding(entries) + field_encoding(
            field.tag,
            field.data,
        ),
    decreases entries.len(),
{
    if entries.len() == 0 {
        let p = entries.push(field);
        assert(p.skip(1) =~= Seq::<UnknownFieldView>::empty());
        assert(p[0] == field);
        assert(set_encoding(p) == field_encoding(field.tag, field.data) + set_encoding(
            p.skip(1),
        ));
        assert(set_encoding(p.skip(1)) == Seq::<u8>::empty());
        assert(set_encoding(entries) == Seq::<u8>::empty());
        assert(set_encoding(p) =~= set_encoding(entries) + field_encoding(
            field.tag,
            field.data,
        ));
    } else {
        lemma_set_encoding_push(entries.skip(1), field);
        assert(entries.push(field).skip(1) =~= entries.skip(1).push(field));
        assert(entries.push(field)[0] == entries[0]);
        assert(set_encoding(entries.push(field)) =~= set_encoding(entries) + field_encoding(
            field.tag,
            field.data,
        ));
    }
}

/// The encoding of a set splits at any entry index.
pub proof fn lemma_set_encoding_split(entries: Seq<UnknownFieldView>, i: int)
    requires
        0 <= i <= entries.len(),
    ensures
        set_encoding(entries) == set_encoding(entries.take(i)) + set_encoding(entries.skip(i)),
    decreases i,
{
    if i == 0 {
        assert(entries.take(0) =~= Seq::<UnknownFieldView>::empty());
        assert(entries.skip(0) =~= entries);
        assert(set_encoding(entries) =~= set_encoding(entries.take(0)) + set_encoding(
            entries.skip(0),
        ));
    } else {
        let tail = entries.skip(1);
        lemma_set_encoding_split(tail, i - 1);
        assert(entries.take(i)[0] == entries[0]);
        assert(entries.take(i).skip(1) =~= tail.take(i - 1));
        assert(entries.skip(i) =~= tail.skip(i - 1));
        assert(set_encoding(entries) =~= set_encoding(entries.take(i)) + set_encoding(
            entries.skip(i),
        ));
    }
}

/// A set of protobuf fields that were not recognized during decoding.
///
/// Every message struct should hold one, so that a decode/re-encode cycle
/// does not discard unknown data.  The backing storage is allocated lazily:
/// a set that never saw an insertion keeps `data` at `None` and owns no
/// storage.  Once a field is inserted the storage exists and is not
/// collapsed back to `None`, even if conceptually empty again after a clear
/// of the parent message rebuilt the set.
///
/// Entries are kept in strictly ascending field-number order, so encoding is
/// deterministic whatever order fields arrived in, and a field number stored
/// twice keeps only the last value.
#[derive(Clone, Debug, PartialEq, Eq)]
pub struct UnknownFieldSet {
    pub data: Option<Vec<UnknownField>>,
}

impl View for UnknownFieldSet {
    type V = Seq<UnknownFieldView>;

    open spec fn view(&self) -> Seq<UnknownFieldView> {
        match self.data {
            None => Seq::empty(),
            Some(m) => m@.map_values(|f: UnknownField| f@),
        }
    }
}

impl UnknownFieldSet {
    /// Entries are sorted by field number, and allocated storage is never
    /// empty (an empty set is the `None` state).
    pub open spec fn wf(&self) -> bool {
        &&& sorted_by_tag(self@)
        &&& match self.data {
            None => true,
            Some(m) => m@.len() > 0,
        }
    }

    /// Builds an empty set, owning no backing storage.
    pub fn new() -> (r: UnknownFieldSet)
        ensures
            r.wf(),
            r@ == Seq::<UnknownFieldView>::empty(),
            r.data is None,
    {
        UnknownFieldSet { data: None }
    }

    /// Adds a field to the set, allocating the backing storage on first use.
    /// A field number already present is overwritten: the last write wins,
    /// whether the duplicate was a genuinely repeated unknown field or a
    /// corrupted duplicate of a singular one (this store cannot tell the two
    /// apart).
    pub fn insert(&mut self, tag: u32, field: UnknownField)
        requires
            old(self).wf(),
            field@.tag == tag,
        ensures
            final(self).wf(),
            final(self)@ == insert_entry(old(self)@, field@),
            final(self).data is Some,
    {
        let ghost entries = self@;
        let ghost fv = field@;
        match &mut self.data {
            None => {
                let mut m: Vec<UnknownField> = Vec::new();
                m.push(field);
                self.data = Some(m);
                proof {
                    assert(self@ =~= insert_entry(entries, fv));
                }
            },
            Some(m) => {
                let mut i: usize = 0;
                while i < m.len() && m[i].tag < tag
                    invariant
                        i <= m@.len(),
                        forall|j: int| 0 <= j < i ==> m@[j]@.tag < tag,
                    decreases m@.len() - i,
                {
                    i = i + 1;
                }
                proof {
                    assert(forall|j: int|
                        0 <= j < i ==> entries[j].tag < tag && entries[j] == m@[j]@);
                    lemma_insert_entry_at(entries, fv, i as int);
                }
                if i < m.len() && m[i].tag == tag {
                    vstd::pervasive::VecAdditionalExecFns::set(m, i, field);
                    proof {
                        assert(self@ =~= entries.update(i as int, fv));
                        assert(sorted_by_tag(self@)) by {
                            assert(forall|k: int|
                                0 <= k < self@.len() && k != i ==> self@[k] == entries[k]);
                        }
                    }
                } else {
                    m.insert(i, field);
                    proof {
                        assert(self@ =~= entries.insert(i as int, fv));
                        assert(sorted_by_tag(self@)) by {
                            assert(forall|k: int| 0 <= k < i ==> self@[k] == entries[k]);
                            assert(self@[i as int] == fv);
                            assert(forall|k: int|
                                i < k < self@.len() ==> self@[k] == entries[k - 1]);
                            assert(i < entries.len() ==> entries[i as int].tag > tag);
                        }
                    }
                }
            },
        }
    }

    /// The raw field stored for `tag`, if one is present.  Reading never
    /// mutates the set.
    pub fn get(&self, tag: u32) -> (r: Option<&UnknownField>)
        requires
            self.wf(),
        ensures
            match r {
                Some(field) => field@.tag == tag && lookup_entry(self@, tag) == Some(
                    field@.data,
                ),
                None => lookup_entry(self@, tag) is None,
            },
    {
        match &self.data {
            None => None,
            Some(m) => {
                let ghost entries = self@;
                proof {
                    assert(entries.skip(0) =~= entries);
                }
                let mut i: usize = 0;
                while i < m.len()
                    invariant
                        i <= m@.len(),
                        self@ == entries,
                        entries == m@.map_values(|f: UnknownField| f@),
                        lookup_entry(entries, tag) == lookup_entry(
                            entries.skip(i as int),
                            tag,
                        ),
                    decreases m@.len() - i,
                {
                    if m[i].tag == tag {
                        proof {
                            assert(entries.skip(i as int)[0] == entries[i as int]);
                            assert(entries[i as int] == m@[i as int]@);
                            assert(lookup_entry(entries.skip(i as int), tag) == Some(
                                entries[i as int].data,
                            ));
                        }
                        return Some(&m[i]);
                    }
                    proof {
                        assert(entries.skip(i as int)[0] == entries[i as int]);
                        assert(entries.skip(i as int).skip(1) =~= entries.skip(i + 1));
                    }
                    i = i + 1;
                }
                proof {
                    assert(entries.skip(i as int).len() == 0);
                }
                None
            },
        }
    }

    /// Parses one unrecognized field's payload from the cursor and stores it
    /// keyed by its field number; the single write entry point of the set.
    /// A group produces no entry, and a malformed field propagates its error
    /// with nothing inserted and the set unchanged.
    pub fn skip_unknown_field(&mut self, tag: u32, wire_type: WireType, buf: &mut ReadBuf) -> (r:
        Result<(), DecodeError>)
        requires
            old(self).wf(),
            old(buf).wf(),
        ensures
            final(self).wf(),
            final(buf).wf(),
            final(buf).data == old(buf).data,
            old(buf).pos <= final(buf).pos,
            match r {
                Ok(_) => match parse_field_spec(tag, wire_type, old(buf).remaining_bytes()) {
                    FieldParse::Value(data, n) => {
                        &&& final(self)@ == insert_entry(
                            old(self)@,
                            UnknownFieldView { tag, data },
                        )
                        &&& final(buf).pos - old(buf).pos == n
                    },
                    FieldParse::Skipped(n) => {
                        &&& *final(self) == *old(self)
                        &&& final(buf).pos - old(buf).pos == n
                    },
                    FieldParse::Malformed => false,
                },
                Err(_) => {
                    &&& parse_field_spec(tag, wire_type, old(buf).remaining_bytes())
                        is Malformed
                    &&& *final(self) == *old(self)
                },
            },
    {
        match UnknownField::parse(tag, wire_type, buf) {
            Err(e) => Err(e),
            Ok(None) => Ok(()),
            Ok(Some(field)) => {
                self.insert(tag, field);
                Ok(())
            },
        }
    }

    /// Appends the wire encoding of every stored field to `buf`, in
    /// ascending field-number order — deterministic output regardless of the
    /// order fields were inserted or first seen on the wire.
    pub fn encode(&self, buf: &mut Vec<u8>)
        requires
            self.wf(),
        ensures
            final(buf)@ == old(buf)@ + set_encoding(self@),
    {
        let ghost entries = self@;
        match &self.data {
            None => {
                proof {
                    assert(buf@ =~= old(buf)@ + set_encoding(entries));
                }
            },
            Some(m) => {
                let mut i: usize = 0;
                while i < m.len()
                    invariant
                        i <= m@.len(),
                        self@ == entries,
                        entries == m@.map_values(|f: UnknownField| f@),
                        buf@ == old(buf)@ + set_encoding(entries.take(i as int)),
                    decreases m@.len() - i,
                {
                    m[i].encode(buf);
                    proof {
                        lemma_set_encoding_push(entries.take(i as int), entries[i as int]);
                        assert(entries.take(i as int).push(entries[i as int]) =~= entries.take(
                            i + 1,
                        ));
                        assert(buf@ =~= old(buf)@ + set_encoding(entries.take(i + 1)));
                    }
                    i = i + 1;
                }
                proof {
                    assert(entries.take(i as int) =~= entries);
                }
            },
        }
    }

    /// The total byte length [`UnknownFieldSet::encode`] would produce: the
    /// sum of every stored field's encoded length.
    pub fn encoded_len(&self) -> (n: usize)
        requires
            self.wf(),
            set_encoding(self@).len() <= usize::MAX,
        ensures
            n == set_encoding(self@).len(),
    {
        let ghost entries = self@;
        match &self.data {
            None => 0,
            Some(m) => {
                let mut total: usize = 0;
                let mut i: usize = 0;
                while i < m.len()
                    invariant
                        i <= m@.len(),
                        self@ == entries,
                        entries == m@.map_values(|f: UnknownField| f@),
                        set_encoding(entries).len() <= usize::MAX,
                        total == set_encoding(entries.take(i as int)).len(),
                    decreases m@.len() - i,
                {
                    proof {
                        lemma_set_encoding_push(entries.take(i as int), entries[i as int]);
                        assert(entries.take(i as int).push(entries[i as int]) =~= entries.take(
                            i + 1,
                        ));
                        lemma_set_encoding_split(entries, i + 1);
                        assert(set_encoding(entries.take(i + 1)).len() <= set_encoding(
                            entries,
                        ).len());
                    }
                    let flen = m[i].encoded_len();
                    total = total + flen;
                    i = i + 1;
                }
                proof {
                    assert(entries.take(i as int) =~= entries);
                }
                total
            },
        }
    }
}

impl Default for UnknownFieldSet {
    /// The default set is empty and owns no backing storage.
    fn default() -> (r: UnknownFieldSet)
        ensures
            r.wf(),
            r@ == Seq::<UnknownFieldView>::empty(),
            r.data is None,
    {
        UnknownFieldSet::new()
    }
}

/// The decode loop of a message that recognizes no field at all: reads
/// field keys and stores every field into the set until the buffer is
/// exhausted.  `None` when any key or field is malformed.
pub open spec fn message_fields_decode(entries: Seq<UnknownFieldView>, s: Seq<u8>) -> Option<
    Seq<UnknownFieldView>,
>
    decreases s.len(),
{
    if s.len() == 0 {
        Some(entries)
    } else {
        match key_decode(s) {
            None => None,
            Some((tag, wire_type, n)) => if !(1 <= n <= s.len()) {
                None
            } else {
                match parse_field_spec(tag, wire_type, s.skip(n)) {
                    FieldParse::Malformed => None,
                    FieldParse::Value(data, m) => if !(0 <= m && n + m <= s.len()) {
                        None
                    } else {
                        message_fields_decode(
                            insert_entry(entries, UnknownFieldView { tag, data }),
                            s.skip(n + m),
                        )
                    },
                    FieldParse::Skipped(m) => if !(0 <= m && n + m <= s.len()) {
                        None
                    } else {
                        message_fields_decode(entries, s.skip(n + m))
                    },
                }
            },
        }
    }
}

/// Decodes every remaining field of `buf` into `set`, reading each key and
/// funneling each field through [`UnknownFieldSet::skip_unknown_field`].
pub fn merge_from_buf(set: &mut UnknownFieldSet, buf: &mut ReadBuf) -> (r: Result<
    (),
    DecodeError,
>)
    requires
        old(set).wf(),
        old(buf).wf(),
    ensures
        final(set).wf(),
        final(buf).wf(),
        final(buf).data == old(buf).data,
        match r {
            Ok(_) => message_fields_decode(old(set)@, old(buf).remaining_bytes()) == Some(
                final(set)@,
            ) && final(buf).remaining_bytes().len() == 0,
            Err(_) => message_fields_decode(old(set)@, old(buf).remaining_bytes()) is None,
        },
{
    let ghost entries0 = old(set)@;
    let ghost s0 = old(buf).remaining_bytes();
    loop
        invariant
            set.wf(),
            buf.wf(),
            buf.data == old(buf).data,
            entries0 == old(set)@,
            s0 == old(buf).remaining_bytes(),
            message_fields_decode(entries0, s0) == message_fields_decode(
                set@,
                buf.remaining_bytes(),
            ),
        decreases buf.remaining_bytes().len(),
    {
        if buf.remaining() == 0 {
            return Ok(());
        }
        let ghost s_cur = buf.remaining_bytes();
        let ghost entries_cur = set@;
        let ghost pos0 = buf.pos;
        match decode_key(buf) {
            Err(e) => {
                return Err(e);
            },
            Ok((tag, wire_type)) => {
                let ghost n = buf.pos - pos0;
                proof {
                    assert(s_cur.skip(n) =~= buf.remaining_bytes());
                }
                match set.skip_unknown_field(tag, wire_type, buf) {
                    Err(e) => {
                        return Err(e);
                    },
                    Ok(_) => {
                        proof {
                            assert(s_cur.skip(buf.pos - pos0) =~= buf.remaining_bytes());
                        }
                    },
                }
            },
        }
    }
}

} // verus!
