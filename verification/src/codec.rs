//! Serialization: each persistable value as a message in the wire format,
//! with a fixed number for every field, and back.

use vstd::prelude::*;
use crate::amount::Amount;
use crate::encoding::{le_value, to_array, vec_of};
use crate::encrypted_fog_hint::EncryptedFogHint;
use crate::membership_proofs::Range;
use crate::ring_signature::{Blinding, Commitment, CurveScalar, KeyImage, RingSignature};
use crate::ristretto::CompressedRistrettoPublic;
use crate::scalar::{group_order, Scalar};
use crate::tx::{
    Tx, TxIn, TxOut, TxOutConfirmationNumber, TxOutMembershipElement, TxOutMembershipHash,
    TxOutMembershipProof, TxPrefix,
};
use crate::wire::{
    all_valid, decode_fields, encode_fields, fields_bytes, fields_view, lemma_parse_fields,
    parse_fields, FieldView, WireField,
};

verus! {

/// Bytes that are not the serialization of a value.
#[derive(Clone, Copy, Debug, PartialEq, Eq, Structural)]
pub struct DecodeError;

/// An amount, as a value.
pub struct AmountView {
    pub commitment: Seq<u8>,
    pub masked_value: Seq<u8>,
    pub masked_blinding: Seq<u8>,
}

/// An output, as a value.
pub struct TxOutView {
    pub amount: AmountView,
    pub target_key: Seq<u8>,
    pub public_key: Seq<u8>,
    pub e_fog_hint: Seq<u8>,
    pub e_memo: Seq<u8>,
}

/// An element of a membership proof, as a value.
pub struct ElementView {
    pub range: Range,
    pub hash: Seq<u8>,
}

/// A membership proof, as a value.
pub struct MembershipProofView {
    pub index: u64,
    pub highest_index: u64,
    pub elements: Seq<ElementView>,
}

/// An input, as a value.
pub struct TxInView {
    pub ring: Seq<TxOutView>,
    pub proofs: Seq<MembershipProofView>,
}

/// A prefix, as a value.
pub struct TxPrefixView {
    pub inputs: Seq<TxInView>,
    pub outputs: Seq<TxOutView>,
    pub fee: u64,
    pub tombstone_block: u64,
}

/// A signature, as a value.
pub struct RingSignatureView {
    pub key_images: Seq<Seq<u8>>,
    pub signature_bytes: Seq<u8>,
}

/// A transaction, as a value.
pub struct TxView {
    pub prefix: TxPrefixView,
    pub signature: RingSignatureView,
}

/// A value that is serialized as a message in the wire format.
pub trait Message: Sized {
    /// What is serialized: the value without regard to how it is held.
    type Value;

    /// The value of `self`.
    spec fn value(&self) -> Self::Value;

    /// The value can be serialized.
    spec fn is_valid(value: Self::Value) -> bool;

    /// The serialization of a value.
    spec fn bytes_of(value: Self::Value) -> Seq<u8>;

    /// The value that `bytes` is the serialization of; `None` where it is
    /// not the serialization of a value.
    spec fn parse(bytes: Seq<u8>) -> Option<Self::Value>;

    /// A value is parsed from its serialization.
    proof fn lemma_round_trip(value: Self::Value)
        requires
            Self::is_valid(value),
        ensures
            Self::parse(Self::bytes_of(value)) == Some(value),
    ;

    /// The serialization of `self`.
    fn encode(&self) -> (out: Vec<u8>)
        ensures
            out@ == Self::bytes_of(self.value()),
            Self::is_valid(self.value()),
    ;

    /// What `bytes` is the serialization of.
    fn decode(bytes: &[u8]) -> (r: Result<Self, DecodeError>)
        ensures
            match Self::parse(bytes@) {
                Some(value) => r is Ok && r->Ok_0.value() == value,
                None => r is Err,
            },
    ;
}

/// The values of a sequence of items.
pub open spec fn values<T: Message>(items: Seq<T>) -> Seq<T::Value> {
    Seq::new(items.len(), |i: int| items[i].value())
}

/// The fields of a sequence of items: one field with the number `tag` for
/// each item.
pub open spec fn item_fields<T: Message>(items: Seq<T::Value>, tag: u8) -> Seq<FieldView> {
    Seq::new(items.len(), |i: int| bytes_field(tag, T::bytes_of(items[i])))
}

/// The items that the fields are those of, where every field has the
/// number `tag` and holds an item.
pub open spec fn parse_items<T: Message>(fields: Seq<FieldView>, tag: u8) -> Option<Seq<T::Value>>
    decreases fields.len(),
{
    if fields.len() == 0 {
        Some(Seq::empty())
    } else {
        match (parse_items::<T>(fields.drop_last(), tag), field_data(fields.last(), tag)) {
            (Some(items), Some(data)) => match T::parse(data) {
                Some(item) => Some(items.push(item)),
                None => None,
            },
            _ => None,
        }
    }
}

/// Every item can be serialized, in a number of bytes that fits in 64
/// bits.
pub open spec fn items_valid<T: Message>(items: Seq<T::Value>) -> bool {
    forall|i: int|
        0 <= i < items.len() ==> T::is_valid(#[trigger] items[i]) && T::bytes_of(items[i]).len()
            <= u64::MAX
}

/// Items are parsed from their fields.
pub proof fn lemma_items_round_trip<T: Message>(items: Seq<T::Value>, tag: u8)
    requires
        items_valid::<T>(items),
        1 <= tag <= 15,
    ensures
        parse_items::<T>(item_fields::<T>(items, tag), tag) == Some(items),
        all_valid(item_fields::<T>(items, tag)),
        forall|i: int|
            0 <= i < items.len() ==> (#[trigger] item_fields::<T>(items, tag)[i]).tag() == tag,
    decreases items.len(),
{
    let fields = item_fields::<T>(items, tag);
    if items.len() > 0 {
        let front = items.drop_last();
        let last = items.last();
        assert(T::is_valid(last));
        assert(items_valid::<T>(front)) by {
            assert forall|i: int| 0 <= i < front.len() implies T::is_valid(#[trigger] front[i])
                && T::bytes_of(front[i]).len() <= u64::MAX by {
                assert(front[i] == items[i]);
            }
        }
        lemma_items_round_trip::<T>(front, tag);
        assert(fields.drop_last() =~= item_fields::<T>(front, tag));
        assert(fields.last() == bytes_field(tag, T::bytes_of(last)));
        T::lemma_round_trip(last);
        assert(front.push(last) =~= items);
    }
    assert forall|i: int| 0 <= i < fields.len() implies (#[trigger] fields[i]).is_valid() by {
        assert(T::is_valid(items[i]));
    }
}

/// Where a front part of the fields does not hold items, the fields do
/// not.
pub proof fn lemma_items_fail<T: Message>(fields: Seq<FieldView>, k: nat, tag: u8)
    requires
        k <= fields.len(),
        parse_items::<T>(fields.subrange(0, k as int), tag) is None,
    ensures
        parse_items::<T>(fields, tag) is None,
    decreases fields.len() - k,
{
    if k < fields.len() {
        let next = fields.subrange(0, k as int + 1);
        assert(next.drop_last() =~= fields.subrange(0, k as int));
        lemma_items_fail::<T>(fields, k + 1, tag);
    } else {
        assert(fields.subrange(0, k as int) =~= fields);
    }
}

/// Appends the fields of a sequence of items.
pub fn encode_items<T: Message>(items: &Vec<T>, tag: u8, fields: &mut Vec<WireField>)
    requires
        1 <= tag <= 15,
    ensures
        fields_view(final(fields)@) == fields_view(old(fields)@) + item_fields::<T>(
            values(items@),
            tag,
        ),
        items_valid::<T>(values(items@)),
{
    let ghost start = fields_view(fields@);
    let ghost all = item_fields::<T>(values(items@), tag);
    let mut i: usize = 0;
    proof {
        assert(fields_view(fields@) =~= start + all.subrange(0, 0));
    }
    while i < items.len()
        invariant
            i <= items@.len(),
            all == item_fields::<T>(values(items@), tag),
            fields_view(fields@) == start + all.subrange(0, i as int),
            forall|j: int|
                0 <= j < i ==> T::is_valid(#[trigger] values(items@)[j]) && T::bytes_of(
                    values(items@)[j],
                ).len() <= u64::MAX,
        decreases items@.len() - i,
    {
        let ghost before = fields_view(fields@);
        let data = items[i].encode();
        let size: usize = data.len();
        fields.push(WireField::Bytes { tag, data });
        i = i + 1;
        proof {
            assert(values(items@)[i - 1] == items@[i - 1].value());
            assert(T::bytes_of(values(items@)[i - 1]).len() == size);
            assert(fields_view(fields@) =~= before.push(bytes_field(tag, data@)));
            assert(fields_view(fields@) =~= start + all.subrange(0, i as int));
        }
    }
    proof {
        assert(all.subrange(0, all.len() as int) =~= all);
    }
}

/// The items that the fields from `start` up to `end` are those of.
pub fn decode_items<T: Message>(fields: &Vec<WireField>, start: usize, end: usize, tag: u8) -> (r:
    Result<Vec<T>, DecodeError>)
    requires
        start <= end <= fields@.len(),
    ensures
        match parse_items::<T>(fields_view(fields@).subrange(start as int, end as int), tag) {
            Some(items) => r is Ok && values(r->Ok_0@) == items,
            None => r is Err,
        },
{
    let ghost window = fields_view(fields@).subrange(start as int, end as int);
    let mut items: Vec<T> = Vec::new();
    let mut i: usize = start;
    proof {
        assert(window.subrange(0, 0) =~= Seq::<FieldView>::empty());
        assert(values(items@) =~= Seq::<T::Value>::empty());
    }
    while i < end
        invariant
            start <= i <= end <= fields@.len(),
            window == fields_view(fields@).subrange(start as int, end as int),
            parse_items::<T>(window.subrange(0, i - start), tag) == Some(values(items@)),
        decreases end - i,
    {
        let ghost done = values(items@);
        let ghost next = window.subrange(0, i - start + 1);
        proof {
            assert(next.drop_last() =~= window.subrange(0, i - start));
            assert(next.last() == fields@[i as int]@);
        }
        let item = match data_of(&fields[i], tag) {
            Some(data) => match T::decode(data.as_slice()) {
                Ok(item) => item,
                Err(_) => {
                    proof {
                        lemma_items_fail::<T>(window, (i - start + 1) as nat, tag);
                    }
                    return Err(DecodeError);
                },
            },
            None => {
                proof {
                    lemma_items_fail::<T>(window, (i - start + 1) as nat, tag);
                }
                return Err(DecodeError);
            },
        };
        items.push(item);
        i = i + 1;
        proof {
            assert(values(items@) =~= done.push(items@[items@.len() - 1].value()));
        }
    }
    proof {
        assert(window.subrange(0, end - start) =~= window);
    }
    Ok(items)
}

/// The field with number `tag` that holds `data`.
pub open spec fn bytes_field(tag: u8, data: Seq<u8>) -> FieldView {
    FieldView::Bytes { tag, data }
}

/// The bytes of the field `field`, where it holds bytes and has the number
/// `tag`.
pub open spec fn field_data(field: FieldView, tag: u8) -> Option<Seq<u8>> {
    match field {
        FieldView::Bytes { tag: t, data } => if t == tag {
            Some(data)
        } else {
            None
        },
        FieldView::Varint { .. } => None,
    }
}

/// The fields of an integer with number `tag`: none for zero, one
/// otherwise.
pub open spec fn varint_fields(tag: u8, value: u64) -> Seq<FieldView> {
    if value == 0 {
        Seq::empty()
    } else {
        seq![FieldView::Varint { tag, value }]
    }
}

/// The integer with number `tag` at the front of `fields`, and the number
/// of fields that it takes: zero and none where the front is another
/// field.
pub open spec fn leading_varint(fields: Seq<FieldView>, tag: u8) -> (u64, nat) {
    if fields.len() > 0 {
        match fields[0] {
            FieldView::Varint { tag: t, value } => if t == tag {
                (value, 1)
            } else {
                (0, 0)
            },
            FieldView::Bytes { .. } => (0, 0),
        }
    } else {
        (0, 0)
    }
}

/// The number of fields at the front of `fields` that have the number
/// `tag`.
pub open spec fn count_leading(fields: Seq<FieldView>, tag: u8) -> nat
    decreases fields.len(),
{
    if fields.len() > 0 && fields[0].tag() == tag {
        1 + count_leading(fields.drop_first(), tag)
    } else {
        0
    }
}

/// Where the first `k` fields have the number `tag` and the next has not,
/// `k` fields are counted.
pub proof fn lemma_count_leading(fields: Seq<FieldView>, tag: u8, k: nat)
    requires
        k <= fields.len(),
        forall|i: int| 0 <= i < k ==> (#[trigger] fields[i]).tag() == tag,
        k == fields.len() || fields[k as int].tag() != tag,
    ensures
        count_leading(fields, tag) == k,
    decreases k,
{
    if k > 0 {
        let rest = fields.drop_first();
        assert forall|i: int| 0 <= i < k - 1 implies (#[trigger] rest[i]).tag() == tag by {
            assert(rest[i] == fields[i + 1]);
        }
        lemma_count_leading(rest, tag, (k - 1) as nat);
    }
}

/// The bytes of the field, where it holds bytes and has the number `tag`.
pub fn data_of(field: &WireField, tag: u8) -> (r: Option<&Vec<u8>>)
    ensures
        match field_data(field@, tag) {
            Some(data) => r is Some && r->Some_0@ == data,
            None => r is None,
        },
{
    match field {
        WireField::Bytes { tag: t, data } => if *t == tag {
            Some(data)
        } else {
            None
        },
        WireField::Varint { .. } => None,
    }
}

/// The number of the field.
pub fn tag_of(field: &WireField) -> (tag: u8)
    ensures
        tag == field@.tag(),
{
    match field {
        WireField::Bytes { tag, .. } => *tag,
        WireField::Varint { tag, .. } => *tag,
    }
}

/// Fields that hold at most `bound` bytes each take at most `bound + 11`
/// bytes each on the wire.
pub proof fn lemma_short_fields(fields: Seq<FieldView>, bound: nat)
    requires
        bound <= u64::MAX,
        forall|i: int|
            0 <= i < fields.len() ==> ((#[trigger] fields[i]) matches FieldView::Bytes {
                data,
                ..
            } ==> data.len() <= bound),
    ensures
        fields_bytes(fields).len() <= fields.len() * (bound + 11),
    decreases fields.len(),
{
    if fields.len() > 0 {
        let rest = fields.drop_first();
        assert forall|i: int| 0 <= i < rest.len() implies ((#[trigger] rest[i]) matches FieldView::Bytes {
            data,
            ..
        } ==> data.len() <= bound) by {
            assert(rest[i] == fields[i + 1]);
        }
        lemma_short_fields(rest, bound);
        match fields[0] {
            FieldView::Varint { tag, value } => {
                crate::wire::lemma_varint_len_u64(value);
            },
            FieldView::Bytes { tag, data } => {
                crate::wire::lemma_varint_len_u64(data.len() as u64);
            },
        }
        assert(fields.len() * (bound + 11) == rest.len() * (bound + 11) + (bound + 11))
            by (nonlinear_arith)
            requires
                fields.len() == rest.len() + 1,
        ;
    }
}

// ---------------------------------------------------------------- Amount

impl AmountView {
    /// The fields of the message.
    pub open spec fn fields(self) -> Seq<FieldView> {
        seq![
            bytes_field(1, self.commitment),
            bytes_field(2, self.masked_value),
            bytes_field(3, self.masked_blinding),
        ]
    }

    /// The amount that the fields are those of.
    pub open spec fn of_fields(fields: Seq<FieldView>) -> Option<AmountView> {
        if fields.len() == 3 {
            match (field_data(fields[0], 1), field_data(fields[1], 2), field_data(fields[2], 3)) {
                (Some(commitment), Some(masked_value), Some(masked_blinding)) => {
                    let amount = AmountView { commitment, masked_value, masked_blinding };
                    if Amount::is_valid(amount) {
                        Some(amount)
                    } else {
                        None
                    }
                },
                _ => None,
            }
        } else {
            None
        }
    }
}

impl Amount {
    /// The amount that the fields are those of.
    pub fn from_fields(fields: &Vec<WireField>) -> (r: Result<Amount, DecodeError>)
        ensures
            match AmountView::of_fields(fields_view(fields@)) {
                Some(amount) => r is Ok && r->Ok_0.value() == amount,
                None => r is Err,
            },
    {
        if fields.len() != 3 {
            return Err(DecodeError);
        }
        let commitment = match data_of(&fields[0], 1) {
            Some(data) => match to_array::<32>(data.as_slice()) {
                Some(bytes) => Commitment { bytes },
                None => {
                    return Err(DecodeError);
                },
            },
            None => {
                return Err(DecodeError);
            },
        };
        let masked_value = match data_of(&fields[1], 2) {
            Some(data) => match to_array::<32>(data.as_slice()) {
                Some(bytes) => match Scalar::from_canonical_bytes(bytes) {
                    Some(scalar) => CurveScalar::from(scalar),
                    None => {
                        return Err(DecodeError);
                    },
                },
                None => {
                    return Err(DecodeError);
                },
            },
            None => {
                return Err(DecodeError);
            },
        };
        let masked_blinding = match data_of(&fields[2], 3) {
            Some(data) => match to_array::<32>(data.as_slice()) {
                Some(bytes) => match Scalar::from_canonical_bytes(bytes) {
                    Some(scalar) => Blinding::from(scalar),
                    None => {
                        return Err(DecodeError);
                    },
                },
                None => {
                    return Err(DecodeError);
                },
            },
            None => {
                return Err(DecodeError);
            },
        };
        Ok(Amount { commitment, masked_value, masked_blinding })
    }
}

impl Message for Amount {
    type Value = AmountView;

    open spec fn value(&self) -> AmountView {
        AmountView {
            commitment: self.commitment@,
            masked_value: self.masked_value.scalar.as_seq(),
            masked_blinding: self.masked_blinding.scalar.as_seq(),
        }
    }

    /// Three strings of 32 bytes, the masked scalars in their canonical
    /// encoding.
    open spec fn is_valid(value: AmountView) -> bool {
        &&& value.commitment.len() == 32
        &&& value.masked_value.len() == 32
        &&& value.masked_blinding.len() == 32
        &&& le_value(value.masked_value) < group_order()
        &&& le_value(value.masked_blinding) < group_order()
    }

    open spec fn bytes_of(value: AmountView) -> Seq<u8> {
        fields_bytes(value.fields())
    }

    open spec fn parse(bytes: Seq<u8>) -> Option<AmountView> {
        match parse_fields(bytes) {
            Some(fields) => AmountView::of_fields(fields),
            None => None,
        }
    }

    proof fn lemma_round_trip(value: AmountView) {
        lemma_parse_fields(value.fields());
    }

    fn encode(&self) -> (out: Vec<u8>) {
        let mut fields: Vec<WireField> = Vec::new();
        fields.push(WireField::Bytes { tag: 1, data: vec_of(self.commitment.bytes.as_slice()) });
        let masked_value = self.masked_value.as_scalar().to_bytes();
        fields.push(WireField::Bytes { tag: 2, data: vec_of(masked_value.as_slice()) });
        let masked_blinding = self.masked_blinding.as_scalar().to_bytes();
        fields.push(WireField::Bytes { tag: 3, data: vec_of(masked_blinding.as_slice()) });
        proof {
            assert(fields_view(fields@) =~= self.value().fields());
        }
        encode_fields(&fields)
    }

    fn decode(bytes: &[u8]) -> (r: Result<Amount, DecodeError>) {
        match decode_fields(bytes) {
            Some(fields) => Amount::from_fields(&fields),
            None => Err(DecodeError),
        }
    }
}

/// The list starts with a field that has the number `tag`.
pub open spec fn starts_with(fields: Seq<FieldView>, tag: u8) -> bool {
    fields.len() > 0 && fields[0].tag() == tag
}

/// Where fields that all have the number `tag` come before fields that do
/// not start with it, they are the ones that are counted.
pub proof fn lemma_count_leading_concat(front: Seq<FieldView>, back: Seq<FieldView>, tag: u8)
    requires
        forall|i: int| 0 <= i < front.len() ==> (#[trigger] front[i]).tag() == tag,
        !starts_with(back, tag),
    ensures
        count_leading(front + back, tag) == front.len(),
        (front + back).subrange(0, front.len() as int) == front,
        (front + back).skip(front.len() as int) == back,
{
    let all = front + back;
    assert forall|i: int| 0 <= i < front.len() implies (#[trigger] all[i]).tag() == tag by {
        assert(all[i] == front[i]);
    }
    if front.len() < all.len() {
        assert(all[front.len() as int] == back[0]);
    }
    lemma_count_leading(all, tag, front.len());
    assert(all.subrange(0, front.len() as int) =~= front);
    assert(all.skip(front.len() as int) =~= back);
}

/// The fields of an integer, before fields that do not start with its
/// number, are read as that integer.
pub proof fn lemma_leading_varint_concat(tag: u8, value: u64, back: Seq<FieldView>)
    requires
        !starts_with(back, tag),
    ensures
        leading_varint(varint_fields(tag, value) + back, tag) == (
            value,
            varint_fields(tag, value).len(),
        ),
        (varint_fields(tag, value) + back).skip(varint_fields(tag, value).len() as int) == back,
{
    let front = varint_fields(tag, value);
    let all = front + back;
    if value == 0 {
        assert(all =~= back);
    } else {
        assert(all[0] == front[0]);
    }
    assert(all.skip(front.len() as int) =~= back);
}

/// The number of fields from `pos` on that have the number `tag`, as the
/// position behind them.
pub fn count_tagged(fields: &Vec<WireField>, pos: usize, tag: u8) -> (end: usize)
    requires
        pos <= fields@.len(),
    ensures
        pos <= end <= fields@.len(),
        end - pos == count_leading(fields_view(fields@).skip(pos as int), tag),
{
    let ghost window = fields_view(fields@).skip(pos as int);
    let mut i: usize = pos;
    loop
        invariant_except_break
            pos <= i <= fields@.len(),
            window == fields_view(fields@).skip(pos as int),
            forall|j: int| 0 <= j < i - pos ==> (#[trigger] window[j]).tag() == tag,
        ensures
            pos <= i <= fields@.len(),
            forall|j: int| 0 <= j < i - pos ==> (#[trigger] window[j]).tag() == tag,
            i == fields@.len() || window[i - pos].tag() != tag,
        decreases fields@.len() - i,
    {
        if i >= fields.len() {
            break ;
        }
        if tag_of(&fields[i]) != tag {
            break ;
        }
        i = i + 1;
    }
    proof {
        lemma_count_leading(window, tag, (i - pos) as nat);
    }
    i
}

/// The integer with the number `tag` at `pos`, and the position behind
/// it; zero and `pos` where another field stands there.
pub fn take_varint(fields: &Vec<WireField>, pos: usize, tag: u8) -> (r: (u64, usize))
    requires
        pos <= fields@.len(),
    ensures
        r.0 == leading_varint(fields_view(fields@).skip(pos as int), tag).0,
        r.1 == pos + leading_varint(fields_view(fields@).skip(pos as int), tag).1,
        pos <= r.1 <= fields@.len(),
{
    if pos < fields.len() {
        match &fields[pos] {
            WireField::Varint { tag: t, value } => if *t == tag {
                (*value, pos + 1)
            } else {
                (0, pos)
            },
            WireField::Bytes { .. } => (0, pos),
        }
    } else {
        (0, pos)
    }
}

// ----------------------------------------------------------------- Range

/// The fields of a range.
pub open spec fn range_fields(range: Range) -> Seq<FieldView> {
    varint_fields(1, range.from) + varint_fields(2, range.to)
}

/// The range that the fields are those of.
pub open spec fn range_of_fields(fields: Seq<FieldView>) -> Option<Range> {
    let (from, n1) = leading_varint(fields, 1);
    let (to, n2) = leading_varint(fields.skip(n1 as int), 2);
    if n1 + n2 == fields.len() {
        Some(Range { from, to })
    } else {
        None
    }
}

impl Message for Range {
    type Value = Range;

    open spec fn value(&self) -> Range {
        *self
    }

    open spec fn is_valid(value: Range) -> bool {
        true
    }

    open spec fn bytes_of(value: Range) -> Seq<u8> {
        fields_bytes(range_fields(value))
    }

    open spec fn parse(bytes: Seq<u8>) -> Option<Range> {
        match parse_fields(bytes) {
            Some(fields) => range_of_fields(fields),
            None => None,
        }
    }

    proof fn lemma_round_trip(value: Range) {
        let fields = range_fields(value);
        lemma_parse_fields(fields);
        lemma_leading_varint_concat(1, value.from, varint_fields(2, value.to));
        lemma_leading_varint_concat(2, value.to, Seq::empty());
        assert(varint_fields(2, value.to) + Seq::<FieldView>::empty() =~= varint_fields(
            2,
            value.to,
        ));
    }

    fn encode(&self) -> (out: Vec<u8>) {
        let mut fields: Vec<WireField> = Vec::new();
        if self.from != 0 {
            fields.push(WireField::Varint { tag: 1, value: self.from });
        }
        if self.to != 0 {
            fields.push(WireField::Varint { tag: 2, value: self.to });
        }
        proof {
            assert(fields_view(fields@) =~= range_fields(*self));
        }
        encode_fields(&fields)
    }

    fn decode(bytes: &[u8]) -> (r: Result<Range, DecodeError>) {
        let fields = match decode_fields(bytes) {
            Some(fields) => fields,
            None => {
                return Err(DecodeError);
            },
        };
        let (from, after_from) = take_varint(&fields, 0, 1);
        proof {
            assert(fields_view(fields@).skip(0) =~= fields_view(fields@));
        }
        let (to, after_to) = take_varint(&fields, after_from, 2);
        if after_to != fields.len() {
            return Err(DecodeError);
        }
        Ok(Range { from, to })
    }
}

// ------------------------------------------------------------- Key image

impl Message for KeyImage {
    type Value = Seq<u8>;

    open spec fn value(&self) -> Seq<u8> {
        self.bytes@
    }

    open spec fn is_valid(value: Seq<u8>) -> bool {
        value.len() == 32
    }

    /// A key image is serialized as its 32 bytes.
    open spec fn bytes_of(value: Seq<u8>) -> Seq<u8> {
        value
    }

    open spec fn parse(bytes: Seq<u8>) -> Option<Seq<u8>> {
        if bytes.len() == 32 {
            Some(bytes)
        } else {
            None
        }
    }

    proof fn lemma_round_trip(value: Seq<u8>) {
    }

    fn encode(&self) -> (out: Vec<u8>) {
        vec_of(self.bytes.as_slice())
    }

    fn decode(bytes: &[u8]) -> (r: Result<KeyImage, DecodeError>) {
        match to_array::<32>(bytes) {
            Some(bytes) => Ok(KeyImage { bytes }),
            None => Err(DecodeError),
        }
    }
}

/// A range is serialized in at most 22 bytes.
pub proof fn lemma_range_bytes_len(range: Range)
    ensures
        Range::bytes_of(range).len() <= 22,
{
    let fields = range_fields(range);
    assert(fields.len() <= 2);
    lemma_short_fields(fields, 0);
    assert(fields.len() * (0 + 11) <= 22) by (nonlinear_arith)
        requires
            fields.len() <= 2,
    ;
}

// ---------------------------------------------------------------- Hashes

impl Message for TxOutMembershipHash {
    type Value = Seq<u8>;

    open spec fn value(&self) -> Seq<u8> {
        self@
    }

    open spec fn is_valid(value: Seq<u8>) -> bool {
        value.len() == 32
    }

    /// A hash of a membership proof is serialized as its 32 bytes.
    open spec fn bytes_of(value: Seq<u8>) -> Seq<u8> {
        value
    }

    open spec fn parse(bytes: Seq<u8>) -> Option<Seq<u8>> {
        if bytes.len() == 32 {
            Some(bytes)
        } else {
            None
        }
    }

    proof fn lemma_round_trip(value: Seq<u8>) {
    }

    fn encode(&self) -> (out: Vec<u8>) {
        let bytes = self.to_bytes();
        vec_of(bytes.as_slice())
    }

    fn decode(bytes: &[u8]) -> (r: Result<TxOutMembershipHash, DecodeError>) {
        match to_array::<32>(bytes) {
            Some(bytes) => Ok(TxOutMembershipHash(bytes)),
            None => Err(DecodeError),
        }
    }
}

impl Message for TxOutConfirmationNumber {
    type Value = Seq<u8>;

    open spec fn value(&self) -> Seq<u8> {
        self@
    }

    open spec fn is_valid(value: Seq<u8>) -> bool {
        value.len() == 32
    }

    /// A confirmation number is serialized as its 32 bytes.
    open spec fn bytes_of(value: Seq<u8>) -> Seq<u8> {
        value
    }

    open spec fn parse(bytes: Seq<u8>) -> Option<Seq<u8>> {
        if bytes.len() == 32 {
            Some(bytes)
        } else {
            None
        }
    }

    proof fn lemma_round_trip(value: Seq<u8>) {
    }

    fn encode(&self) -> (out: Vec<u8>) {
        let bytes = self.to_bytes();
        vec_of(bytes.as_slice())
    }

    fn decode(bytes: &[u8]) -> (r: Result<TxOutConfirmationNumber, DecodeError>) {
        match to_array::<32>(bytes) {
            Some(bytes) => Ok(TxOutConfirmationNumber::from_bytes(&bytes)),
            None => Err(DecodeError),
        }
    }
}

// --------------------------------------------------------------- Element

impl ElementView {
    /// The fields of the message.
    pub open spec fn fields(self) -> Seq<FieldView> {
        seq![bytes_field(1, Range::bytes_of(self.range)), bytes_field(2, self.hash)]
    }

    /// The element that the fields are those of.
    pub open spec fn of_fields(fields: Seq<FieldView>) -> Option<ElementView> {
        if fields.len() == 2 {
            match (field_data(fields[0], 1), field_data(fields[1], 2)) {
                (Some(range_bytes), Some(hash)) => match Range::parse(range_bytes) {
                    Some(range) => if hash.len() == 32 {
                        Some(ElementView { range, hash })
                    } else {
                        None
                    },
                    None => None,
                },
                _ => None,
            }
        } else {
            None
        }
    }
}

impl Message for TxOutMembershipElement {
    type Value = ElementView;

    open spec fn value(&self) -> ElementView {
        ElementView { range: self.range, hash: self.hash@ }
    }

    open spec fn is_valid(value: ElementView) -> bool {
        value.hash.len() == 32
    }

    open spec fn bytes_of(value: ElementView) -> Seq<u8> {
        fields_bytes(value.fields())
    }

    open spec fn parse(bytes: Seq<u8>) -> Option<ElementView> {
        match parse_fields(bytes) {
            Some(fields) => ElementView::of_fields(fields),
            None => None,
        }
    }

    proof fn lemma_round_trip(value: ElementView) {
        Range::lemma_round_trip(value.range);
        lemma_range_bytes_len(value.range);
        let fields = value.fields();
        assert(fields[0].is_valid());
        assert(fields[1].is_valid());
        lemma_parse_fields(fields);
    }

    fn encode(&self) -> (out: Vec<u8>) {
        let mut fields: Vec<WireField> = Vec::new();
        let range_bytes = self.range.encode();
        let size: usize = range_bytes.len();
        fields.push(WireField::Bytes { tag: 1, data: range_bytes });
        fields.push(WireField::Bytes { tag: 2, data: vec_of(self.hash.0.as_slice()) });
        proof {
            assert(fields_view(fields@) =~= self.value().fields());
        }
        encode_fields(&fields)
    }

    fn decode(bytes: &[u8]) -> (r: Result<TxOutMembershipElement, DecodeError>) {
        let fields = match decode_fields(bytes) {
            Some(fields) => fields,
            None => {
                return Err(DecodeError);
            },
        };
        if fields.len() != 2 {
            return Err(DecodeError);
        }
        let range = match data_of(&fields[0], 1) {
            Some(data) => match Range::decode(data.as_slice()) {
                Ok(range) => range,
                Err(_) => {
                    return Err(DecodeError);
                },
            },
            None => {
                return Err(DecodeError);
            },
        };
        let hash = match data_of(&fields[1], 2) {
            Some(data) => match to_array::<32>(data.as_slice()) {
                Some(bytes) => TxOutMembershipHash(bytes),
                None => {
                    return Err(DecodeError);
                },
            },
            None => {
                return Err(DecodeError);
            },
        };
        Ok(TxOutMembershipElement { range, hash })
    }
}

// ------------------------------------------------------ Membership proof

impl MembershipProofView {
    /// The fields of the message.
    pub open spec fn fields(self) -> Seq<FieldView> {
        varint_fields(1, self.index) + varint_fields(2, self.highest_index) + item_fields::<
            TxOutMembershipElement,
        >(self.elements, 3)
    }

    /// The membership proof that the fields are those of.
    pub open spec fn of_fields(fields: Seq<FieldView>) -> Option<MembershipProofView> {
        let (index, n1) = leading_varint(fields, 1);
        let (highest_index, n2) = leading_varint(fields.skip(n1 as int), 2);
        match parse_items::<TxOutMembershipElement>(
            fields.subrange((n1 + n2) as int, fields.len() as int),
            3,
        ) {
            Some(elements) => Some(MembershipProofView { index, highest_index, elements }),
            None => None,
        }
    }
}

impl Message for TxOutMembershipProof {
    type Value = MembershipProofView;

    open spec fn value(&self) -> MembershipProofView {
        MembershipProofView {
            index: self.index,
            highest_index: self.highest_index,
            elements: values(self.elements@),
        }
    }

    open spec fn is_valid(value: MembershipProofView) -> bool {
        items_valid::<TxOutMembershipElement>(value.elements)
    }

    open spec fn bytes_of(value: MembershipProofView) -> Seq<u8> {
        fields_bytes(value.fields())
    }

    open spec fn parse(bytes: Seq<u8>) -> Option<MembershipProofView> {
        match parse_fields(bytes) {
            Some(fields) => MembershipProofView::of_fields(fields),
            None => None,
        }
    }

    proof fn lemma_round_trip(value: MembershipProofView) {
        let a = varint_fields(1, value.index);
        let b = varint_fields(2, value.highest_index);
        let e = item_fields::<TxOutMembershipElement>(value.elements, 3);
        let fields = value.fields();
        lemma_items_round_trip::<TxOutMembershipElement>(value.elements, 3);
        assert(all_valid(fields)) by {
            assert forall|i: int| 0 <= i < fields.len() implies (#[trigger] fields[i]).is_valid() by {
                if i >= a.len() + b.len() {
                    assert(fields[i] == e[i - a.len() - b.len()]);
                }
            }
        }
        lemma_parse_fields(fields);
        assert(!starts_with(e, 2) && !starts_with(e, 1)) by {
            if e.len() > 0 {
                assert(e[0].tag() == 3);
            }
        }
        assert(!starts_with(b + e, 1)) by {
            if b.len() > 0 {
                assert((b + e)[0] == b[0]);
            } else {
                assert(b + e =~= e);
            }
        }
        assert(fields =~= a + (b + e));
        lemma_leading_varint_concat(1, value.index, b + e);
        lemma_leading_varint_concat(2, value.highest_index, e);
        assert(fields.subrange((a.len() + b.len()) as int, fields.len() as int) =~= e);
    }

    fn encode(&self) -> (out: Vec<u8>) {
        let mut fields: Vec<WireField> = Vec::new();
        if self.index != 0 {
            fields.push(WireField::Varint { tag: 1, value: self.index });
        }
        if self.highest_index != 0 {
            fields.push(WireField::Varint { tag: 2, value: self.highest_index });
        }
        proof {
            assert(fields_view(fields@) =~= varint_fields(1, self.index) + varint_fields(
                2,
                self.highest_index,
            ));
        }
        encode_items::<TxOutMembershipElement>(&self.elements, 3, &mut fields);
        proof {
            let value = self.value();
            lemma_items_round_trip::<TxOutMembershipElement>(value.elements, 3);
            let e = item_fields::<TxOutMembershipElement>(value.elements, 3);
            let all = fields_view(fields@);
            assert(all == value.fields());
            assert forall|i: int| 0 <= i < all.len() implies (#[trigger] all[i]).is_valid() by {
                if i >= all.len() - e.len() {
                    assert(all[i] == e[i - (all.len() - e.len())]);
                }
            }
        }
        encode_fields(&fields)
    }

    fn decode(bytes: &[u8]) -> (r: Result<TxOutMembershipProof, DecodeError>) {
        let fields = match decode_fields(bytes) {
            Some(fields) => fields,
            None => {
                return Err(DecodeError);
            },
        };
        proof {
            assert(fields_view(fields@).skip(0) =~= fields_view(fields@));
        }
        let (index, after_index) = take_varint(&fields, 0, 1);
        let (highest_index, after_highest) = take_varint(&fields, after_index, 2);
        match decode_items::<TxOutMembershipElement>(&fields, after_highest, fields.len(), 3) {
            Ok(elements) => Ok(TxOutMembershipProof { index, highest_index, elements }),
            Err(e) => Err(e),
        }
    }
}

// ---------------------------------------------------------------- Output

/// An amount is serialized in at most 129 bytes.
pub proof fn lemma_amount_bytes_len(amount: AmountView)
    requires
        Amount::is_valid(amount),
    ensures
        Amount::bytes_of(amount).len() <= 129,
{
    let fields = amount.fields();
    lemma_short_fields(fields, 32);
    assert(fields.len() * (32 + 11) <= 129) by (nonlinear_arith)
        requires
            fields.len() == 3,
    ;
}

impl TxOutView {
    /// The fields of the memo: none where there is no memo.
    pub open spec fn memo_fields(self) -> Seq<FieldView> {
        if self.e_memo.len() > 0 {
            seq![bytes_field(5, self.e_memo)]
        } else {
            Seq::empty()
        }
    }

    /// The fields of the message.
    pub open spec fn fields(self) -> Seq<FieldView> {
        seq![
            bytes_field(1, Amount::bytes_of(self.amount)),
            bytes_field(2, self.target_key),
            bytes_field(3, self.public_key),
            bytes_field(4, self.e_fog_hint),
        ] + self.memo_fields()
    }

    /// The output that the fields are those of.
    pub open spec fn of_fields(fields: Seq<FieldView>) -> Option<TxOutView> {
        if fields.len() == 4 || fields.len() == 5 {
            match (field_data(fields[0], 1), field_data(fields[1], 2)) {
                (Some(amount_bytes), Some(target_key)) => match (
                    field_data(fields[2], 3),
                    field_data(fields[3], 4),
                ) {
                    (Some(public_key), Some(e_fog_hint)) => match Amount::parse(amount_bytes) {
                        Some(amount) => if target_key.len() == 32 && public_key.len() == 32
                            && e_fog_hint.len() == 84 {
                            if fields.len() == 4 {
                                Some(
                                    TxOutView {
                                        amount,
                                        target_key,
                                        public_key,
                                        e_fog_hint,
                                        e_memo: Seq::empty(),
                                    },
                                )
                            } else {
                                match field_data(fields[4], 5) {
                                    Some(e_memo) => Some(
                                        TxOutView {
                                            amount,
                                            target_key,
                                            public_key,
                                            e_fog_hint,
                                            e_memo,
                                        },
                                    ),
                                    None => None,
                                }
                            }
                        } else {
                            None
                        },
                        None => None,
                    },
                    _ => None,
                },
                _ => None,
            }
        } else {
            None
        }
    }
}

impl Message for TxOut {
    type Value = TxOutView;

    open spec fn value(&self) -> TxOutView {
        TxOutView {
            amount: self.amount.value(),
            target_key: self.target_key@,
            public_key: self.public_key@,
            e_fog_hint: self.e_fog_hint@,
            e_memo: self.e_memo@,
        }
    }

    open spec fn is_valid(value: TxOutView) -> bool {
        &&& Amount::is_valid(value.amount)
        &&& value.target_key.len() == 32
        &&& value.public_key.len() == 32
        &&& value.e_fog_hint.len() == 84
        &&& value.e_memo.len() <= u64::MAX
    }

    open spec fn bytes_of(value: TxOutView) -> Seq<u8> {
        fields_bytes(value.fields())
    }

    open spec fn parse(bytes: Seq<u8>) -> Option<TxOutView> {
        match parse_fields(bytes) {
            Some(fields) => TxOutView::of_fields(fields),
            None => None,
        }
    }

    proof fn lemma_round_trip(value: TxOutView) {
        let fields = value.fields();
        Amount::lemma_round_trip(value.amount);
        lemma_amount_bytes_len(value.amount);
        assert(fields[0].is_valid());
        assert(fields[1].is_valid());
        assert(fields[2].is_valid());
        assert(fields[3].is_valid());
        if value.e_memo.len() > 0 {
            assert(fields[4].is_valid());
        } else {
            assert(value.e_memo =~= Seq::<u8>::empty());
        }
        lemma_parse_fields(fields);
    }

    fn encode(&self) -> (out: Vec<u8>) {
        let mut fields: Vec<WireField> = Vec::new();
        let amount_bytes = self.amount.encode();
        let size: usize = amount_bytes.len();
        fields.push(WireField::Bytes { tag: 1, data: amount_bytes });
        fields.push(WireField::Bytes { tag: 2, data: vec_of(self.target_key.bytes.as_slice()) });
        fields.push(WireField::Bytes { tag: 3, data: vec_of(self.public_key.bytes.as_slice()) });
        fields.push(WireField::Bytes { tag: 4, data: vec_of(self.e_fog_hint.bytes.as_slice()) });
        if self.e_memo.len() > 0 {
            fields.push(WireField::Bytes { tag: 5, data: vec_of(self.e_memo.as_slice()) });
        }
        proof {
            assert(fields_view(fields@) =~= self.value().fields());
        }
        encode_fields(&fields)
    }

    fn decode(bytes: &[u8]) -> (r: Result<TxOut, DecodeError>) {
        let fields = match decode_fields(bytes) {
            Some(fields) => fields,
            None => {
                return Err(DecodeError);
            },
        };
        if fields.len() != 4 && fields.len() != 5 {
            return Err(DecodeError);
        }
        let amount = match data_of(&fields[0], 1) {
            Some(data) => match Amount::decode(data.as_slice()) {
                Ok(amount) => amount,
                Err(_) => {
                    return Err(DecodeError);
                },
            },
            None => {
                return Err(DecodeError);
            },
        };
        let target_key = match data_of(&fields[1], 2) {
            Some(data) => match to_array::<32>(data.as_slice()) {
                Some(bytes) => CompressedRistrettoPublic { bytes },
                None => {
                    return Err(DecodeError);
                },
            },
            None => {
                return Err(DecodeError);
            },
        };
        let public_key = match data_of(&fields[2], 3) {
            Some(data) => match to_array::<32>(data.as_slice()) {
                Some(bytes) => CompressedRistrettoPublic { bytes },
                None => {
                    return Err(DecodeError);
                },
            },
            None => {
                return Err(DecodeError);
            },
        };
        let e_fog_hint = match data_of(&fields[3], 4) {
            Some(data) => match to_array::<84>(data.as_slice()) {
                Some(bytes) => EncryptedFogHint { bytes },
                None => {
                    return Err(DecodeError);
                },
            },
            None => {
                return Err(DecodeError);
            },
        };
        let e_memo = if fields.len() == 5 {
            match data_of(&fields[4], 5) {
                Some(data) => vec_of(data.as_slice()),
                None => {
                    return Err(DecodeError);
                },
            }
        } else {
            Vec::new()
        };
        Ok(TxOut { amount, target_key, public_key, e_fog_hint, e_memo })
    }
}

/// The items of valid fields are valid fields, wherever they stand in a
/// list of valid fields.
pub proof fn lemma_all_valid_concat(front: Seq<FieldView>, back: Seq<FieldView>)
    requires
        all_valid(front),
        all_valid(back),
    ensures
        all_valid(front + back),
{
    let all = front + back;
    assert forall|i: int| 0 <= i < all.len() implies (#[trigger] all[i]).is_valid() by {
        if i < front.len() {
            assert(all[i] == front[i]);
        } else {
            assert(all[i] == back[i - front.len()]);
        }
    }
}

// ----------------------------------------------------------------- Input

impl TxInView {
    /// The fields of the message.
    pub open spec fn fields(self) -> Seq<FieldView> {
        item_fields::<TxOut>(self.ring, 1) + item_fields::<TxOutMembershipProof>(self.proofs, 2)
    }

    /// The input that the fields are those of.
    pub open spec fn of_fields(fields: Seq<FieldView>) -> Option<TxInView> {
        let k = count_leading(fields, 1);
        match (
            parse_items::<TxOut>(fields.subrange(0, k as int), 1),
            parse_items::<TxOutMembershipProof>(fields.subrange(k as int, fields.len() as int), 2),
        ) {
            (Some(ring), Some(proofs)) => Some(TxInView { ring, proofs }),
            _ => None,
        }
    }
}

impl Message for TxIn {
    type Value = TxInView;

    open spec fn value(&self) -> TxInView {
        TxInView { ring: values(self.ring@), proofs: values(self.proofs@) }
    }

    open spec fn is_valid(value: TxInView) -> bool {
        &&& items_valid::<TxOut>(value.ring)
        &&& items_valid::<TxOutMembershipProof>(value.proofs)
    }

    open spec fn bytes_of(value: TxInView) -> Seq<u8> {
        fields_bytes(value.fields())
    }

    open spec fn parse(bytes: Seq<u8>) -> Option<TxInView> {
        match parse_fields(bytes) {
            Some(fields) => TxInView::of_fields(fields),
            None => None,
        }
    }

    proof fn lemma_round_trip(value: TxInView) {
        let a = item_fields::<TxOut>(value.ring, 1);
        let b = item_fields::<TxOutMembershipProof>(value.proofs, 2);
        let fields = value.fields();
        lemma_items_round_trip::<TxOut>(value.ring, 1);
        lemma_items_round_trip::<TxOutMembershipProof>(value.proofs, 2);
        lemma_all_valid_concat(a, b);
        lemma_parse_fields(fields);
        assert(!starts_with(b, 1)) by {
            if b.len() > 0 {
                assert(b[0].tag() == 2);
            }
        }
        lemma_count_leading_concat(a, b, 1);
        assert(fields.subrange(a.len() as int, fields.len() as int) =~= b);
    }

    fn encode(&self) -> (out: Vec<u8>) {
        let mut fields: Vec<WireField> = Vec::new();
        proof {
            assert(fields_view(fields@) =~= Seq::<FieldView>::empty());
        }
        encode_items::<TxOut>(&self.ring, 1, &mut fields);
        encode_items::<TxOutMembershipProof>(&self.proofs, 2, &mut fields);
        proof {
            let value = self.value();
            let a = item_fields::<TxOut>(value.ring, 1);
            let b = item_fields::<TxOutMembershipProof>(value.proofs, 2);
            lemma_items_round_trip::<TxOut>(value.ring, 1);
            lemma_items_round_trip::<TxOutMembershipProof>(value.proofs, 2);
            lemma_all_valid_concat(a, b);
            assert(fields_view(fields@) =~= value.fields());
        }
        encode_fields(&fields)
    }

    fn decode(bytes: &[u8]) -> (r: Result<TxIn, DecodeError>) {
        let fields = match decode_fields(bytes) {
            Some(fields) => fields,
            None => {
                return Err(DecodeError);
            },
        };
        proof {
            assert(fields_view(fields@).skip(0) =~= fields_view(fields@));
        }
        let k = count_tagged(&fields, 0, 1);
        let ring = match decode_items::<TxOut>(&fields, 0, k, 1) {
            Ok(ring) => ring,
            Err(e) => {
                return Err(e);
            },
        };
        let proofs = match decode_items::<TxOutMembershipProof>(&fields, k, fields.len(), 2) {
            Ok(proofs) => proofs,
            Err(e) => {
                return Err(e);
            },
        };
        Ok(TxIn { ring, proofs })
    }
}

// ---------------------------------------------------------------- Prefix

impl TxPrefixView {
    /// The fields of the message.
    pub open spec fn fields(self) -> Seq<FieldView> {
        item_fields::<TxIn>(self.inputs, 1) + (item_fields::<TxOut>(self.outputs, 2) + (
        varint_fields(3, self.fee) + varint_fields(4, self.tombstone_block)))
    }

    /// The prefix that the fields are those of.
    pub open spec fn of_fields(fields: Seq<FieldView>) -> Option<TxPrefixView> {
        let k1 = count_leading(fields, 1);
        let k2 = count_leading(fields.skip(k1 as int), 2);
        let (fee, n3) = leading_varint(fields.skip((k1 + k2) as int), 3);
        let (tombstone_block, n4) = leading_varint(fields.skip((k1 + k2 + n3) as int), 4);
        if k1 + k2 + n3 + n4 == fields.len() {
            match (
                parse_items::<TxIn>(fields.subrange(0, k1 as int), 1),
                parse_items::<TxOut>(fields.subrange(k1 as int, (k1 + k2) as int), 2),
            ) {
                (Some(inputs), Some(outputs)) => Some(
                    TxPrefixView { inputs, outputs, fee, tombstone_block },
                ),
                _ => None,
            }
        } else {
            None
        }
    }
}

impl Message for TxPrefix {
    type Value = TxPrefixView;

    open spec fn value(&self) -> TxPrefixView {
        TxPrefixView {
            inputs: values(self.inputs@),
            outputs: values(self.outputs@),
            fee: self.fee,
            tombstone_block: self.tombstone_block,
        }
    }

    open spec fn is_valid(value: TxPrefixView) -> bool {
        &&& items_valid::<TxIn>(value.inputs)
        &&& items_valid::<TxOut>(value.outputs)
    }

    open spec fn bytes_of(value: TxPrefixView) -> Seq<u8> {
        fields_bytes(value.fields())
    }

    open spec fn parse(bytes: Seq<u8>) -> Option<TxPrefixView> {
        match parse_fields(bytes) {
            Some(fields) => TxPrefixView::of_fields(fields),
            None => None,
        }
    }

    proof fn lemma_round_trip(value: TxPrefixView) {
        let a = item_fields::<TxIn>(value.inputs, 1);
        let b = item_fields::<TxOut>(value.outputs, 2);
        let c = varint_fields(3, value.fee);
        let d = varint_fields(4, value.tombstone_block);
        let fields = value.fields();
        lemma_items_round_trip::<TxIn>(value.inputs, 1);
        lemma_items_round_trip::<TxOut>(value.outputs, 2);
        lemma_all_valid_concat(c, d);
        lemma_all_valid_concat(b, c + d);
        lemma_all_valid_concat(a, b + (c + d));
        lemma_parse_fields(fields);
        assert(!starts_with(c + d, 2) && !starts_with(c + d, 1)) by {
            if c.len() > 0 {
                assert((c + d)[0] == c[0]);
            } else {
                assert(c + d =~= d);
            }
        }
        assert(!starts_with(b + (c + d), 1)) by {
            if b.len() > 0 {
                assert((b + (c + d))[0] == b[0]);
                assert(b[0].tag() == 2);
            } else {
                assert(b + (c + d) =~= c + d);
            }
        }
        assert(!starts_with(d, 3));
        lemma_count_leading_concat(a, b + (c + d), 1);
        lemma_count_leading_concat(b, c + d, 2);
        lemma_leading_varint_concat(3, value.fee, d);
        lemma_leading_varint_concat(4, value.tombstone_block, Seq::empty());
        assert(d + Seq::<FieldView>::empty() =~= d);
        let k1 = a.len();
        let k2 = b.len();
        assert(fields.skip(k1 as int) == b + (c + d));
        assert(fields.skip((k1 + k2) as int) =~= (b + (c + d)).skip(k2 as int));
        assert(fields.skip((k1 + k2 + c.len()) as int) =~= (c + d).skip(c.len() as int));
        assert(fields.subrange(k1 as int, (k1 + k2) as int) =~= b);
    }

    fn encode(&self) -> (out: Vec<u8>) {
        let mut fields: Vec<WireField> = Vec::new();
        proof {
            assert(fields_view(fields@) =~= Seq::<FieldView>::empty());
        }
        encode_items::<TxIn>(&self.inputs, 1, &mut fields);
        encode_items::<TxOut>(&self.outputs, 2, &mut fields);
        let ghost items = fields_view(fields@);
        if self.fee != 0 {
            fields.push(WireField::Varint { tag: 3, value: self.fee });
        }
        if self.tombstone_block != 0 {
            fields.push(WireField::Varint { tag: 4, value: self.tombstone_block });
        }
        proof {
            let value = self.value();
            let a = item_fields::<TxIn>(value.inputs, 1);
            let b = item_fields::<TxOut>(value.outputs, 2);
            let c = varint_fields(3, value.fee);
            let d = varint_fields(4, value.tombstone_block);
            lemma_items_round_trip::<TxIn>(value.inputs, 1);
            lemma_items_round_trip::<TxOut>(value.outputs, 2);
            lemma_all_valid_concat(c, d);
            lemma_all_valid_concat(b, c + d);
            lemma_all_valid_concat(a, b + (c + d));
            assert(items =~= a + b);
            assert(fields_view(fields@) =~= items + (c + d));
            assert(fields_view(fields@) =~= value.fields());
        }
        encode_fields(&fields)
    }

    fn decode(bytes: &[u8]) -> (r: Result<TxPrefix, DecodeError>) {
        let fields = match decode_fields(bytes) {
            Some(fields) => fields,
            None => {
                return Err(DecodeError);
            },
        };
        proof {
            assert(fields_view(fields@).skip(0) =~= fields_view(fields@));
        }
        let k1 = count_tagged(&fields, 0, 1);
        let k2 = count_tagged(&fields, k1, 2);
        let (fee, after_fee) = take_varint(&fields, k2, 3);
        let (tombstone_block, after_tombstone) = take_varint(&fields, after_fee, 4);
        if after_tombstone != fields.len() {
            return Err(DecodeError);
        }
        let inputs = match decode_items::<TxIn>(&fields, 0, k1, 1) {
            Ok(inputs) => inputs,
            Err(e) => {
                return Err(e);
            },
        };
        let outputs = match decode_items::<TxOut>(&fields, k1, k2, 2) {
            Ok(outputs) => outputs,
            Err(e) => {
                return Err(e);
            },
        };
        Ok(TxPrefix { inputs, outputs, fee, tombstone_block })
    }
}

// ------------------------------------------------------------- Signature

impl RingSignatureView {
    /// The fields of the signature bytes: none where there are none.
    pub open spec fn signature_fields(self) -> Seq<FieldView> {
        if self.signature_bytes.len() > 0 {
            seq![bytes_field(2, self.signature_bytes)]
        } else {
            Seq::empty()
        }
    }

    /// The fields of the message.
    pub open spec fn fields(self) -> Seq<FieldView> {
        item_fields::<KeyImage>(self.key_images, 1) + self.signature_fields()
    }

    /// The signature that the fields are those of.
    pub open spec fn of_fields(fields: Seq<FieldView>) -> Option<RingSignatureView> {
        let k = count_leading(fields, 1);
        match parse_items::<KeyImage>(fields.subrange(0, k as int), 1) {
            Some(key_images) => if fields.len() == k {
                Some(RingSignatureView { key_images, signature_bytes: Seq::empty() })
            } else if fields.len() == k + 1 {
                match field_data(fields[k as int], 2) {
                    Some(signature_bytes) => Some(RingSignatureView { key_images, signature_bytes }),
                    None => None,
                }
            } else {
                None
            },
            None => None,
        }
    }
}

impl Message for RingSignature {
    type Value = RingSignatureView;

    open spec fn value(&self) -> RingSignatureView {
        RingSignatureView {
            key_images: values(self.key_images@),
            signature_bytes: self.signature_bytes@,
        }
    }

    open spec fn is_valid(value: RingSignatureView) -> bool {
        &&& items_valid::<KeyImage>(value.key_images)
        &&& value.signature_bytes.len() <= u64::MAX
    }

    open spec fn bytes_of(value: RingSignatureView) -> Seq<u8> {
        fields_bytes(value.fields())
    }

    open spec fn parse(bytes: Seq<u8>) -> Option<RingSignatureView> {
        match parse_fields(bytes) {
            Some(fields) => RingSignatureView::of_fields(fields),
            None => None,
        }
    }

    proof fn lemma_round_trip(value: RingSignatureView) {
        let a = item_fields::<KeyImage>(value.key_images, 1);
        let b = value.signature_fields();
        let fields = value.fields();
        lemma_items_round_trip::<KeyImage>(value.key_images, 1);
        lemma_all_valid_concat(a, b);
        lemma_parse_fields(fields);
        lemma_count_leading_concat(a, b, 1);
        if value.signature_bytes.len() > 0 {
            assert(fields[a.len() as int] == b[0]);
        } else {
            assert(value.signature_bytes =~= Seq::<u8>::empty());
        }
    }

    fn encode(&self) -> (out: Vec<u8>) {
        let mut fields: Vec<WireField> = Vec::new();
        proof {
            assert(fields_view(fields@) =~= Seq::<FieldView>::empty());
        }
        encode_items::<KeyImage>(&self.key_images, 1, &mut fields);
        if self.signature_bytes.len() > 0 {
            fields.push(WireField::Bytes { tag: 2, data: vec_of(self.signature_bytes.as_slice()) });
        }
        proof {
            let value = self.value();
            let a = item_fields::<KeyImage>(value.key_images, 1);
            let b = value.signature_fields();
            lemma_items_round_trip::<KeyImage>(value.key_images, 1);
            lemma_all_valid_concat(a, b);
            assert(fields_view(fields@) =~= value.fields());
        }
        encode_fields(&fields)
    }

    fn decode(bytes: &[u8]) -> (r: Result<RingSignature, DecodeError>) {
        let fields = match decode_fields(bytes) {
            Some(fields) => fields,
            None => {
                return Err(DecodeError);
            },
        };
        proof {
            assert(fields_view(fields@).skip(0) =~= fields_view(fields@));
        }
        let k = count_tagged(&fields, 0, 1);
        let key_images = match decode_items::<KeyImage>(&fields, 0, k, 1) {
            Ok(key_images) => key_images,
            Err(e) => {
                return Err(e);
            },
        };
        if fields.len() == k {
            Ok(RingSignature { key_images, signature_bytes: Vec::new() })
        } else if fields.len() - k == 1 {
            match data_of(&fields[k], 2) {
                Some(data) => Ok(RingSignature { key_images, signature_bytes: vec_of(data.as_slice()) }),
                None => Err(DecodeError),
            }
        } else {
            Err(DecodeError)
        }
    }
}

// ----------------------------------------------------------- Transaction

impl TxView {
    /// The fields of the message.
    pub open spec fn fields(self) -> Seq<FieldView> {
        seq![
            bytes_field(1, TxPrefix::bytes_of(self.prefix)),
            bytes_field(2, RingSignature::bytes_of(self.signature)),
        ]
    }

    /// The transaction that the fields are those of.
    pub open spec fn of_fields(fields: Seq<FieldView>) -> Option<TxView> {
        if fields.len() == 2 {
            match (field_data(fields[0], 1), field_data(fields[1], 2)) {
                (Some(prefix_bytes), Some(signature_bytes)) => match (
                    TxPrefix::parse(prefix_bytes),
                    RingSignature::parse(signature_bytes),
                ) {
                    (Some(prefix), Some(signature)) => Some(TxView { prefix, signature }),
                    _ => None,
                },
                _ => None,
            }
        } else {
            None
        }
    }
}

impl Message for Tx {
    type Value = TxView;

    open spec fn value(&self) -> TxView {
        TxView { prefix: self.prefix.value(), signature: self.signature.value() }
    }

    open spec fn is_valid(value: TxView) -> bool {
        &&& TxPrefix::is_valid(value.prefix)
        &&& RingSignature::is_valid(value.signature)
        &&& TxPrefix::bytes_of(value.prefix).len() <= u64::MAX
        &&& RingSignature::bytes_of(value.signature).len() <= u64::MAX
    }

    open spec fn bytes_of(value: TxView) -> Seq<u8> {
        fields_bytes(value.fields())
    }

    open spec fn parse(bytes: Seq<u8>) -> Option<TxView> {
        match parse_fields(bytes) {
            Some(fields) => TxView::of_fields(fields),
            None => None,
        }
    }

    proof fn lemma_round_trip(value: TxView) {
        let fields = value.fields();
        TxPrefix::lemma_round_trip(value.prefix);
        RingSignature::lemma_round_trip(value.signature);
        assert(fields[0].is_valid());
        assert(fields[1].is_valid());
        lemma_parse_fields(fields);
    }

    fn encode(&self) -> (out: Vec<u8>) {
        let mut fields: Vec<WireField> = Vec::new();
        let prefix_bytes = self.prefix.encode();
        let prefix_size: usize = prefix_bytes.len();
        fields.push(WireField::Bytes { tag: 1, data: prefix_bytes });
        let signature_bytes = self.signature.encode();
        let signature_size: usize = signature_bytes.len();
        fields.push(WireField::Bytes { tag: 2, data: signature_bytes });
        proof {
            assert(fields_view(fields@) =~= self.value().fields());
        }
        encode_fields(&fields)
    }

    fn decode(bytes: &[u8]) -> (r: Result<Tx, DecodeError>) {
        let fields = match decode_fields(bytes) {
            Some(fields) => fields,
            None => {
                return Err(DecodeError);
            },
        };
        if fields.len() != 2 {
            return Err(DecodeError);
        }
        let prefix = match data_of(&fields[0], 1) {
            Some(data) => match TxPrefix::decode(data.as_slice()) {
                Ok(prefix) => prefix,
                Err(e) => {
                    return Err(e);
                },
            },
            None => {
                return Err(DecodeError);
            },
        };
        let signature = match data_of(&fields[1], 2) {
            Some(data) => match RingSignature::decode(data.as_slice()) {
                Ok(signature) => signature,
                Err(e) => {
                    return Err(e);
                },
            },
            None => {
                return Err(DecodeError);
            },
        };
        Ok(Tx { prefix, signature })
    }
}

/// What is decoded from the serialization of a value is that value: where
/// `bytes` is what `encode` gives for `item`, and `decoded` what `decode`
/// gives for `bytes`, `decoded` holds the value of `item`.
pub proof fn lemma_decode_encode<T: Message>(
    item: T,
    bytes: Seq<u8>,
    decoded: Result<T, DecodeError>,
)
    requires
        T::is_valid(item.value()),
        bytes == T::bytes_of(item.value()),
        match T::parse(bytes) {
            Some(value) => decoded is Ok && decoded->Ok_0.value() == value,
            None => decoded is Err,
        },
    ensures
        decoded is Ok,
        decoded->Ok_0.value() == item.value(),
{
    T::lemma_round_trip(item.value());
}

} // verus!
