//! The wire format of serialized messages: a message is a sequence of
//! fields, each a key byte followed by a variable-length integer or by a
//! length and that many bytes.

use vstd::prelude::*;
use vstd::arithmetic::div_mod::lemma_fundamental_div_mod;
use crate::encoding::{append_all, copy_range};

verus! {

/// The variable-length encoding of `v`: seven bits to a byte, least
/// significant first, the high bit set on every byte but the last.
pub open spec fn varint(v: nat) -> Seq<u8>
    decreases v,
{
    if v < 128 {
        seq![v as u8]
    } else {
        seq![(v % 128 + 128) as u8] + varint(v / 128)
    }
}

/// The integer that a variable-length encoding at the front of `s` stands
/// for, and the number of bytes that it takes; `None` where there is none
/// within `limit` bytes or where the integer does not fit in 64 bits.
pub open spec fn parse_varint(s: Seq<u8>, limit: nat) -> Option<(u64, nat)>
    decreases limit,
{
    if limit == 0 || s.len() == 0 {
        None
    } else if s[0] < 128 {
        Some((s[0] as u64, 1))
    } else {
        match parse_varint(s.drop_first(), (limit - 1) as nat) {
            Some((rest, n)) => if (s[0] - 128) + 128 * rest <= u64::MAX {
                Some((((s[0] - 128) + 128 * rest) as u64, n + 1))
            } else {
                None
            },
            None => None,
        }
    }
}

/// `128^n`.
pub open spec fn pow128(n: nat) -> nat
    decreases n,
{
    if n == 0 {
        1
    } else {
        128 * pow128((n - 1) as nat)
    }
}

/// An integer below `128^k` is encoded in at most `k` bytes, and in at
/// least one.
pub proof fn lemma_varint_len(v: nat, k: nat)
    requires
        k >= 1,
        v < pow128(k),
    ensures
        1 <= varint(v).len() <= k,
    decreases v,
{
    if v >= 128 {
        assert(pow128(1) == 128 * pow128(0));
        assert(k >= 2);
        lemma_varint_len(v / 128, (k - 1) as nat);
    }
}

/// An integer of 64 bits is encoded in at most ten bytes.
pub proof fn lemma_varint_len_u64(v: u64)
    ensures
        1 <= varint(v as nat).len() <= 10,
{
    assert(pow128(0) == 1);
    assert(pow128(1) == 128 * pow128(0));
    assert(pow128(2) == 128 * pow128(1));
    assert(pow128(3) == 128 * pow128(2));
    assert(pow128(4) == 128 * pow128(3));
    assert(pow128(5) == 128 * pow128(4));
    assert(pow128(6) == 128 * pow128(5));
    assert(pow128(7) == 128 * pow128(6));
    assert(pow128(8) == 128 * pow128(7));
    assert(pow128(9) == 128 * pow128(8));
    assert(pow128(10) == 128 * pow128(9));
    lemma_varint_len(v as nat, 10);
}

/// What encodes an integer of 64 bits is parsed as that integer, whatever
/// follows.
pub proof fn lemma_parse_varint(v: u64, rest: Seq<u8>, limit: nat)
    requires
        limit >= varint(v as nat).len(),
    ensures
        parse_varint(varint(v as nat) + rest, limit) == Some((v, varint(v as nat).len())),
    decreases v,
{
    let s = varint(v as nat) + rest;
    if v < 128 {
        assert(s[0] == v as u8);
    } else {
        let head = (v % 128 + 128) as u8;
        assert(s[0] == head);
        assert(s.drop_first() =~= varint((v / 128) as nat) + rest);
        lemma_parse_varint(v / 128, rest, (limit - 1) as nat);
        lemma_fundamental_div_mod(v as int, 128);
    }
}

/// Appends the variable-length encoding of `v`.
pub fn encode_varint(v: u64, out: &mut Vec<u8>)
    ensures
        final(out)@ == old(out)@ + varint(v as nat),
{
    let mut rest: u64 = v;
    proof {
        assert(out@ + varint(rest as nat) =~= old(out)@ + varint(v as nat));
    }
    while rest >= 128
        invariant
            out@ + varint(rest as nat) == old(out)@ + varint(v as nat),
        decreases rest,
    {
        let ghost before = out@;
        let byte: u8 = (rest % 128 + 128) as u8;
        out.push(byte);
        proof {
            assert(varint(rest as nat) == seq![byte] + varint((rest / 128) as nat));
            assert(out@ + varint((rest / 128) as nat) =~= before + varint(rest as nat));
        }
        rest = rest / 128;
    }
    let ghost before = out@;
    out.push(rest as u8);
    proof {
        assert(out@ =~= before + varint(rest as nat));
    }
}

/// Reads a variable-length integer at `pos`, within `limit` bytes.
fn decode_varint_within(buf: &[u8], pos: usize, limit: usize) -> (r: Option<(u64, usize)>)
    requires
        pos <= buf@.len(),
    ensures
        match parse_varint(buf@.skip(pos as int), limit as nat) {
            Some((v, n)) => r == Some((v, (pos + n) as usize)) && pos + n <= buf@.len(),
            None => r is None,
        },
    decreases limit,
{
    if limit == 0 || pos >= buf.len() {
        return None;
    }
    let ghost s = buf@.skip(pos as int);
    let byte: u8 = buf[pos];
    proof {
        assert(s[0] == byte);
        assert(s.drop_first() =~= buf@.skip(pos + 1));
    }
    if byte < 128 {
        return Some((byte as u64, pos + 1));
    }
    match decode_varint_within(buf, pos + 1, limit - 1) {
        Some((rest, next)) => {
            let low: u64 = (byte - 128) as u64;
            if rest > (u64::MAX - low) / 128 {
                None
            } else {
                Some((low + 128 * rest, next))
            }
        },
        None => None,
    }
}

/// Reads a variable-length integer at `pos`: the integer and the position
/// behind it.
pub fn decode_varint(buf: &[u8], pos: usize) -> (r: Option<(u64, usize)>)
    requires
        pos <= buf@.len(),
    ensures
        match parse_varint(buf@.skip(pos as int), 10) {
            Some((v, n)) => r == Some((v, (pos + n) as usize)) && pos + n <= buf@.len(),
            None => r is None,
        },
{
    decode_varint_within(buf, pos, 10)
}

/// One field of a message, as it is read from the wire or written to it.
#[derive(Clone, Debug, PartialEq, Eq)]
pub enum WireField {
    /// A field that holds an integer.
    Varint { tag: u8, value: u64 },
    /// A field that holds bytes: a string, or a message in its encoding.
    Bytes { tag: u8, data: Vec<u8> },
}

/// One field of a message, as a value.
pub enum FieldView {
    /// A field that holds an integer.
    Varint { tag: u8, value: u64 },
    /// A field that holds bytes.
    Bytes { tag: u8, data: Seq<u8> },
}

impl View for WireField {
    type V = FieldView;

    open spec fn view(&self) -> FieldView {
        match *self {
            WireField::Varint { tag, value } => FieldView::Varint { tag, value },
            WireField::Bytes { tag, data } => FieldView::Bytes { tag, data: data@ },
        }
    }
}

/// The fields of a list, as values.
pub open spec fn fields_view(fields: Seq<WireField>) -> Seq<FieldView> {
    Seq::new(fields.len(), |i: int| fields[i]@)
}

impl FieldView {
    /// The number of the field.
    pub open spec fn tag(self) -> u8 {
        match self {
            FieldView::Varint { tag, .. } => tag,
            FieldView::Bytes { tag, .. } => tag,
        }
    }

    /// The field can be written: its number takes one key byte, and the
    /// length of its bytes fits in 64 bits.
    pub open spec fn is_valid(self) -> bool {
        &&& 1 <= self.tag() <= 15
        &&& self matches FieldView::Bytes { data, .. } ==> data.len() <= u64::MAX
    }

    /// The bytes of the field on the wire.
    pub open spec fn wire_bytes(self) -> Seq<u8> {
        match self {
            FieldView::Varint { tag, value } => seq![(tag * 8) as u8] + varint(value as nat),
            FieldView::Bytes { tag, data } => seq![(tag * 8 + 2) as u8] + varint(data.len())
                + data,
        }
    }
}

/// Every field of the list can be written.
pub open spec fn all_valid(fields: Seq<FieldView>) -> bool {
    forall|i: int| 0 <= i < fields.len() ==> (#[trigger] fields[i]).is_valid()
}

/// The bytes of a list of fields on the wire: those of each field, in
/// order.
pub open spec fn fields_bytes(fields: Seq<FieldView>) -> Seq<u8>
    decreases fields.len(),
{
    if fields.len() == 0 {
        Seq::empty()
    } else {
        fields[0].wire_bytes() + fields_bytes(fields.drop_first())
    }
}

/// The field at the front of `s`, and the number of bytes that it takes.
pub open spec fn parse_field(s: Seq<u8>) -> Option<(FieldView, nat)> {
    if s.len() == 0 || s[0] >= 128 || s[0] / 8 == 0 {
        None
    } else if s[0] % 8 == 0 {
        match parse_varint(s.drop_first(), 10) {
            Some((value, n)) => Some((FieldView::Varint { tag: s[0] / 8, value }, 1 + n)),
            None => None,
        }
    } else if s[0] % 8 == 2 {
        match parse_varint(s.drop_first(), 10) {
            Some((len, n)) => if 1 + n + len <= s.len() {
                Some(
                    (
                        FieldView::Bytes {
                            tag: s[0] / 8,
                            data: s.subrange(1 + n as int, 1 + n + len),
                        },
                        1 + n + len as nat,
                    ),
                )
            } else {
                None
            },
            None => None,
        }
    } else {
        None
    }
}

/// `first` before the fields of `rest`, where there are any.
pub open spec fn prepend_fields(first: Seq<FieldView>, rest: Option<Seq<FieldView>>) -> Option<
    Seq<FieldView>,
> {
    match rest {
        Some(fields) => Some(first + fields),
        None => None,
    }
}

/// The fields that `s` is the wire bytes of; `None` where it is not the
/// wire bytes of a list of fields.
pub open spec fn parse_fields(s: Seq<u8>) -> Option<Seq<FieldView>>
    decreases s.len(),
{
    if s.len() == 0 {
        Some(Seq::empty())
    } else {
        match parse_field(s) {
            Some((field, n)) => if 0 < n <= s.len() {
                prepend_fields(seq![field], parse_fields(s.skip(n as int)))
            } else {
                None
            },
            None => None,
        }
    }
}

/// A field that can be written is parsed from its wire bytes, whatever
/// follows.
pub proof fn lemma_parse_field(field: FieldView, rest: Seq<u8>)
    requires
        field.is_valid(),
    ensures
        parse_field(field.wire_bytes() + rest) == Some((field, field.wire_bytes().len())),
{
    let s = field.wire_bytes() + rest;
    match field {
        FieldView::Varint { tag, value } => {
            let key = (tag * 8) as u8;
            assert(s[0] == key);
            assert(key / 8 == tag && key % 8 == 0 && key < 128) by (bit_vector)
                requires
                    key == (tag * 8) as u8,
                    1 <= tag <= 15,
            ;
            assert(s.drop_first() =~= varint(value as nat) + rest);
            lemma_varint_len_u64(value);
            lemma_parse_varint(value, rest, 10);
        },
        FieldView::Bytes { tag, data } => {
            let key = (tag * 8 + 2) as u8;
            assert(s[0] == key);
            assert(key / 8 == tag && key % 8 == 2 && key < 128) by (bit_vector)
                requires
                    key == (tag * 8 + 2) as u8,
                    1 <= tag <= 15,
            ;
            let len = data.len() as u64;
            assert(s.drop_first() =~= varint(len as nat) + (data + rest));
            lemma_varint_len_u64(len);
            lemma_parse_varint(len, data + rest, 10);
            let n = varint(len as nat).len();
            assert(s.subrange(1 + n as int, 1 + n + len) =~= data);
        },
    }
}

/// Fields that can be written are parsed from their wire bytes.
pub proof fn lemma_parse_fields(fields: Seq<FieldView>)
    requires
        all_valid(fields),
    ensures
        parse_fields(fields_bytes(fields)) == Some(fields),
    decreases fields.len(),
{
    if fields.len() > 0 {
        let first = fields[0];
        let rest = fields.drop_first();
        let s = fields_bytes(fields);
        assert(first.is_valid());
        assert(all_valid(rest)) by {
            assert forall|i: int| 0 <= i < rest.len() implies (#[trigger] rest[i]).is_valid() by {
                assert(rest[i] == fields[i + 1]);
            }
        }
        lemma_parse_field(first, fields_bytes(rest));
        lemma_parse_fields(rest);
        let n = first.wire_bytes().len();
        assert(n > 0);
        assert(s.skip(n as int) =~= fields_bytes(rest));
        assert(seq![first] + rest =~= fields);
    }
}

/// Appends the wire bytes of one field.
pub fn encode_field(field: &WireField, out: &mut Vec<u8>)
    requires
        field@.is_valid(),
    ensures
        final(out)@ == old(out)@ + field@.wire_bytes(),
{
    match field {
        WireField::Varint { tag, value } => {
            out.push(*tag * 8);
            encode_varint(*value, out);
            proof {
                assert(out@ =~= old(out)@ + field@.wire_bytes());
            }
        },
        WireField::Bytes { tag, data } => {
            out.push(*tag * 8 + 2);
            encode_varint(data.len() as u64, out);
            append_all(out, data.as_slice());
            proof {
                assert(out@ =~= old(out)@ + field@.wire_bytes());
            }
        },
    }
}

/// The wire bytes of a list of fields.
pub fn encode_fields(fields: &Vec<WireField>) -> (out: Vec<u8>)
    requires
        all_valid(fields_view(fields@)),
    ensures
        out@ == fields_bytes(fields_view(fields@)),
{
    let mut out: Vec<u8> = Vec::new();
    let ghost views = fields_view(fields@);
    let mut i: usize = 0;
    proof {
        assert(views.skip(0) =~= views);
        assert(out@ + fields_bytes(views.skip(0)) =~= fields_bytes(views));
    }
    while i < fields.len()
        invariant
            i <= fields@.len(),
            views == fields_view(fields@),
            all_valid(views),
            out@ + fields_bytes(views.skip(i as int)) == fields_bytes(views),
        decreases fields@.len() - i,
    {
        let ghost before = out@;
        let ghost tail = views.skip(i as int);
        proof {
            assert(tail[0] == views[i as int]);
            assert(views[i as int].is_valid());
            assert(tail.drop_first() =~= views.skip(i + 1));
        }
        encode_field(&fields[i], &mut out);
        proof {
            assert(out@ + fields_bytes(views.skip(i + 1)) =~= before + fields_bytes(tail));
        }
        i = i + 1;
    }
    proof {
        assert(views.skip(fields@.len() as int) =~= Seq::<FieldView>::empty());
        assert(out@ + Seq::<u8>::empty() =~= out@);
    }
    out
}

/// Reads the field at `pos`: the field and the position behind it.
pub fn decode_field(buf: &[u8], pos: usize) -> (r: Option<(WireField, usize)>)
    requires
        pos < buf@.len(),
    ensures
        match parse_field(buf@.skip(pos as int)) {
            Some((field, n)) => r is Some && r->Some_0.0@ == field && r->Some_0.1 == pos + n && 0
                < n && pos + n <= buf@.len(),
            None => r is None,
        },
{
    let ghost s = buf@.skip(pos as int);
    let key: u8 = buf[pos];
    proof {
        assert(s[0] == key);
        assert(s.drop_first() =~= buf@.skip(pos + 1));
    }
    if key >= 128 || key / 8 == 0 {
        return None;
    }
    let tag: u8 = key / 8;
    if key % 8 == 0 {
        match decode_varint(buf, pos + 1) {
            Some((value, next)) => Some((WireField::Varint { tag, value }, next)),
            None => None,
        }
    } else if key % 8 == 2 {
        match decode_varint(buf, pos + 1) {
            Some((len, next)) => {
                if len > (buf.len() - next) as u64 {
                    return None;
                }
                let end: usize = next + len as usize;
                let data = copy_range(buf, next, end);
                proof {
                    let n = (next - pos - 1) as nat;
                    assert(s.subrange(1 + n as int, 1 + n + len) =~= buf@.subrange(
                        next as int,
                        end as int,
                    ));
                }
                Some((WireField::Bytes { tag, data }, end))
            },
            None => None,
        }
    } else {
        None
    }
}

/// The fields that `buf` is the wire bytes of, where it is the wire bytes
/// of a list of fields.
pub fn decode_fields(buf: &[u8]) -> (r: Option<Vec<WireField>>)
    ensures
        match parse_fields(buf@) {
            Some(fields) => r is Some && fields_view(r->Some_0@) == fields,
            None => r is None,
        },
{
    let mut fields: Vec<WireField> = Vec::new();
    let mut pos: usize = 0;
    proof {
        assert(buf@.skip(0) =~= buf@);
        lemma_prepend_empty(parse_fields(buf@));
        assert(fields_view(fields@) =~= Seq::<FieldView>::empty());
    }
    while pos < buf.len()
        invariant
            pos <= buf@.len(),
            parse_fields(buf@) == prepend_fields(
                fields_view(fields@),
                parse_fields(buf@.skip(pos as int)),
            ),
        decreases buf@.len() - pos,
    {
        let ghost done = fields_view(fields@);
        let ghost s = buf@.skip(pos as int);
        match decode_field(buf, pos) {
            Some((field, next)) => {
                proof {
                    let n = (next - pos) as nat;
                    assert(s.skip(n as int) =~= buf@.skip(next as int));
                    lemma_prepend_twice(done, field@, parse_fields(buf@.skip(next as int)));
                }
                fields.push(field);
                proof {
                    assert(fields_view(fields@) =~= done.push(field@));
                }
                pos = next;
            },
            None => {
                return None;
            },
        }
    }
    proof {
        assert(buf@.skip(pos as int) =~= Seq::<u8>::empty());
        assert(fields_view(fields@) + Seq::<FieldView>::empty() =~= fields_view(fields@));
    }
    Some(fields)
}

/// Nothing before the fields of `rest` is `rest`.
pub proof fn lemma_prepend_empty(rest: Option<Seq<FieldView>>)
    ensures
        prepend_fields(Seq::empty(), rest) == rest,
{
    match rest {
        Some(fields) => {
            assert(Seq::<FieldView>::empty() + fields =~= fields);
        },
        None => {},
    }
}

/// `done`, then `field`, then the fields of `rest`, however grouped.
pub proof fn lemma_prepend_twice(done: Seq<FieldView>, field: FieldView, rest: Option<Seq<FieldView>>)
    ensures
        prepend_fields(done, prepend_fields(seq![field], rest)) == prepend_fields(
            done.push(field),
            rest,
        ),
{
    match rest {
        Some(fields) => {
            assert(done + (seq![field] + fields) =~= done.push(field) + fields);
        },
        None => {},
    }
}

} // verus!
