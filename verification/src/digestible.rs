//! How the values of a transaction are absorbed into a transcript: every
//! field in the order of its declaration, under its own name, structures
//! between an opening and a closing, sequences behind their length.

use vstd::prelude::*;
use vstd::string::StringSliceAdditionalSpecFns;
use crate::amount::Amount;
use crate::codec::{
    values, AmountView, ElementView, MembershipProofView, Message, RingSignatureView, TxInView,
    TxOutView, TxPrefixView, TxView,
};
use crate::encoding::{le_bytes, lemma_le_value_of_le_bytes, lemma_pow256_values};
use crate::membership_proofs::Range;
use crate::ring_signature::{KeyImage, RingSignature};
use crate::transcript::{
    agg_closer_messages, agg_header_messages, bytes_messages, lemma_name_fits,
    primitive_messages, seq_header_messages, u64_messages, DigestTranscript,
};
use crate::tx::{Tx, TxIn, TxOut, TxOutMembershipElement, TxOutMembershipProof, TxPrefix};

verus! {

/// A value that a transcript can absorb.
pub trait Digestible: Message {
    /// The messages that stand for a value in the place named `context`.
    spec fn messages(context: Seq<u8>, value: Self::Value) -> Seq<(Seq<u8>, Seq<u8>)>;

    /// The value can be absorbed: the length of every string of bytes in
    /// it fits in 32 bits, that of every sequence in 64 bits.
    spec fn is_digestible(value: Self::Value) -> bool;

    /// The messages bind the value: where the messages of two values,
    /// each followed by more messages, are the same, so are the values,
    /// and so is what follows.
    proof fn lemma_messages_bind(
        context: Seq<u8>,
        a: Self::Value,
        b: Self::Value,
        after_a: Seq<(Seq<u8>, Seq<u8>)>,
        after_b: Seq<(Seq<u8>, Seq<u8>)>,
    )
        requires
            Self::is_digestible(a),
            Self::is_digestible(b),
            Self::messages(context, a) + after_a == Self::messages(context, b) + after_b,
        ensures
            a == b,
            after_a == after_b,
    ;

    /// Whether the value can be absorbed.
    fn check_digestible(&self) -> (ok: bool)
        ensures
            ok == Self::is_digestible(self.value()),
    ;

    /// Absorbs the value in the place named `context`.
    fn append_to_transcript(&self, context: &'static str, transcript: &mut DigestTranscript)
        requires
            Self::is_digestible(self.value()),
        ensures
            final(transcript)@ == old(transcript)@ + Self::messages(
                context.spec_bytes(),
                self.value(),
            ),
    ;
}

/// Values with the same messages are the same value.
pub proof fn lemma_messages_injective<T: Digestible>(context: Seq<u8>, a: T::Value, b: T::Value)
    requires
        T::is_digestible(a),
        T::is_digestible(b),
        T::messages(context, a) == T::messages(context, b),
    ensures
        a == b,
{
    T::lemma_messages_bind(context, a, b, Seq::empty(), Seq::empty());
}

/// Joining sequences does not depend on the grouping.
pub proof fn lemma_add_assoc<A>(a: Seq<A>, b: Seq<A>, c: Seq<A>)
    ensures
        (a + b) + c == a + (b + c),
{
    assert((a + b) + c =~= a + (b + c));
}

/// Where two sequences of one length, each followed by more, are the
/// same, so are the two, and so is what follows.
pub proof fn lemma_same_length_bind<A>(a: Seq<A>, b: Seq<A>, after_a: Seq<A>, after_b: Seq<A>)
    requires
        a.len() == b.len(),
        a + after_a == b + after_b,
    ensures
        a == b,
        after_a == after_b,
{
    let left = a + after_a;
    let right = b + after_b;
    assert(a =~= left.subrange(0, a.len() as int));
    assert(b =~= right.subrange(0, b.len() as int));
    assert(after_a =~= left.subrange(a.len() as int, left.len() as int));
    assert(after_b =~= right.subrange(b.len() as int, right.len() as int));
}

/// The messages of a primitive value bind its bytes.
pub proof fn lemma_primitive_bind(
    context: Seq<u8>,
    kind: Seq<u8>,
    a: Seq<u8>,
    b: Seq<u8>,
    after_a: Seq<(Seq<u8>, Seq<u8>)>,
    after_b: Seq<(Seq<u8>, Seq<u8>)>,
)
    requires
        primitive_messages(context, kind, a) + after_a == primitive_messages(context, kind, b)
            + after_b,
    ensures
        a == b,
        after_a == after_b,
{
    let ma = primitive_messages(context, kind, a);
    let mb = primitive_messages(context, kind, b);
    lemma_same_length_bind(ma, mb, after_a, after_b);
    assert(ma[1].1 == a);
    assert(mb[1].1 == b);
}

/// Eight bytes encode one integer of 64 bits.
pub proof fn lemma_le_bytes_8_bind(a: nat, b: nat)
    requires
        a <= u64::MAX,
        b <= u64::MAX,
        le_bytes(a, 8) == le_bytes(b, 8),
    ensures
        a == b,
{
    lemma_pow256_values();
    lemma_le_value_of_le_bytes(a, 8);
    lemma_le_value_of_le_bytes(b, 8);
}

/// The messages of an integer bind it.
pub proof fn lemma_u64_bind(
    context: Seq<u8>,
    a: u64,
    b: u64,
    after_a: Seq<(Seq<u8>, Seq<u8>)>,
    after_b: Seq<(Seq<u8>, Seq<u8>)>,
)
    requires
        u64_messages(context, a) + after_a == u64_messages(context, b) + after_b,
    ensures
        a == b,
        after_a == after_b,
{
    lemma_primitive_bind(
        context,
        "uint".spec_bytes(),
        le_bytes(a as nat, 8),
        le_bytes(b as nat, 8),
        after_a,
        after_b,
    );
    lemma_le_bytes_8_bind(a as nat, b as nat);
}

/// The messages of a compressed group element.
pub open spec fn ristretto_messages(context: Seq<u8>, bytes: Seq<u8>) -> Seq<(Seq<u8>, Seq<u8>)> {
    primitive_messages(context, "ristretto".spec_bytes(), bytes)
}

/// The messages of a scalar.
pub open spec fn scalar_messages(context: Seq<u8>, bytes: Seq<u8>) -> Seq<(Seq<u8>, Seq<u8>)> {
    primitive_messages(context, "scalar".spec_bytes(), bytes)
}

/// The messages of the items of a sequence, each in the place with the
/// empty name.
pub open spec fn item_messages<T: Digestible>(items: Seq<T::Value>) -> Seq<(Seq<u8>, Seq<u8>)>
    decreases items.len(),
{
    if items.len() == 0 {
        Seq::empty()
    } else {
        item_messages::<T>(items.drop_last()) + T::messages("".spec_bytes(), items.last())
    }
}

/// The messages of a sequence: its length, then its items.
pub open spec fn seq_messages<T: Digestible>(context: Seq<u8>, items: Seq<T::Value>) -> Seq<
    (Seq<u8>, Seq<u8>),
> {
    seq_header_messages(context, items.len()) + item_messages::<T>(items)
}

/// The sequence can be absorbed: its length fits in 64 bits, and every
/// item can be absorbed.
pub open spec fn seq_digestible<T: Digestible>(items: Seq<T::Value>) -> bool {
    &&& items.len() <= u64::MAX
    &&& forall|i: int| 0 <= i < items.len() ==> T::is_digestible(#[trigger] items[i])
}

/// The messages of the items are those of the first item, then those of
/// the others.
pub proof fn lemma_item_messages_front<T: Digestible>(items: Seq<T::Value>)
    requires
        items.len() > 0,
    ensures
        item_messages::<T>(items) == T::messages("".spec_bytes(), items[0]) + item_messages::<T>(
            items.drop_first(),
        ),
    decreases items.len(),
{
    let first = T::messages("".spec_bytes(), items[0]);
    if items.len() == 1 {
        assert(items.drop_last() =~= Seq::<T::Value>::empty());
        assert(items.drop_first() =~= Seq::<T::Value>::empty());
        assert(Seq::<(Seq<u8>, Seq<u8>)>::empty() + first =~= first + Seq::<
            (Seq<u8>, Seq<u8>),
        >::empty());
    } else {
        let front = items.drop_last();
        lemma_item_messages_front::<T>(front);
        assert(front.drop_first() =~= items.drop_first().drop_last());
        assert(items.drop_first().last() == items.last());
        lemma_add_assoc(
            first,
            item_messages::<T>(front.drop_first()),
            T::messages("".spec_bytes(), items.last()),
        );
    }
}

/// The messages of as many items bind the items.
pub proof fn lemma_items_bind<T: Digestible>(
    a: Seq<T::Value>,
    b: Seq<T::Value>,
    after_a: Seq<(Seq<u8>, Seq<u8>)>,
    after_b: Seq<(Seq<u8>, Seq<u8>)>,
)
    requires
        a.len() == b.len(),
        seq_digestible::<T>(a),
        seq_digestible::<T>(b),
        item_messages::<T>(a) + after_a == item_messages::<T>(b) + after_b,
    ensures
        a == b,
        after_a == after_b,
    decreases a.len(),
{
    if a.len() == 0 {
        assert(item_messages::<T>(a) + after_a =~= after_a);
        assert(item_messages::<T>(b) + after_b =~= after_b);
        assert(a =~= b);
    } else {
        let rest_a = a.drop_first();
        let rest_b = b.drop_first();
        lemma_item_messages_front::<T>(a);
        lemma_item_messages_front::<T>(b);
        let empty = "".spec_bytes();
        lemma_add_assoc(T::messages(empty, a[0]), item_messages::<T>(rest_a), after_a);
        lemma_add_assoc(T::messages(empty, b[0]), item_messages::<T>(rest_b), after_b);
        T::lemma_messages_bind(
            empty,
            a[0],
            b[0],
            item_messages::<T>(rest_a) + after_a,
            item_messages::<T>(rest_b) + after_b,
        );
        assert(seq_digestible::<T>(rest_a)) by {
            assert forall|i: int| 0 <= i < rest_a.len() implies T::is_digestible(
                #[trigger] rest_a[i],
            ) by {
                assert(rest_a[i] == a[i + 1]);
            }
        }
        assert(seq_digestible::<T>(rest_b)) by {
            assert forall|i: int| 0 <= i < rest_b.len() implies T::is_digestible(
                #[trigger] rest_b[i],
            ) by {
                assert(rest_b[i] == b[i + 1]);
            }
        }
        lemma_items_bind::<T>(rest_a, rest_b, after_a, after_b);
        assert(a =~= seq![a[0]] + rest_a);
        assert(b =~= seq![b[0]] + rest_b);
    }
}

/// The messages of a sequence bind the sequence.
pub proof fn lemma_seq_bind<T: Digestible>(
    context: Seq<u8>,
    a: Seq<T::Value>,
    b: Seq<T::Value>,
    after_a: Seq<(Seq<u8>, Seq<u8>)>,
    after_b: Seq<(Seq<u8>, Seq<u8>)>,
)
    requires
        seq_digestible::<T>(a),
        seq_digestible::<T>(b),
        seq_messages::<T>(context, a) + after_a == seq_messages::<T>(context, b) + after_b,
    ensures
        a == b,
        after_a == after_b,
{
    let header_a = seq_header_messages(context, a.len());
    let header_b = seq_header_messages(context, b.len());
    let tail_a = item_messages::<T>(a) + after_a;
    let tail_b = item_messages::<T>(b) + after_b;
    lemma_add_assoc(header_a, item_messages::<T>(a), after_a);
    lemma_add_assoc(header_b, item_messages::<T>(b), after_b);
    lemma_same_length_bind(header_a, header_b, tail_a, tail_b);
    assert(header_a[1].1 == le_bytes(a.len(), 8));
    assert(header_b[1].1 == le_bytes(b.len(), 8));
    lemma_le_bytes_8_bind(a.len(), b.len());
    lemma_items_bind::<T>(a, b, after_a, after_b);
}

/// Whether every item of the sequence can be absorbed.
pub fn check_seq_digestible<T: Digestible>(items: &Vec<T>) -> (ok: bool)
    ensures
        ok == seq_digestible::<T>(values(items@)),
{
    let mut i: usize = 0;
    while i < items.len()
        invariant
            i <= items@.len(),
            forall|j: int| 0 <= j < i ==> T::is_digestible(#[trigger] values(items@)[j]),
        decreases items@.len() - i,
    {
        if !items[i].check_digestible() {
            assert(!T::is_digestible(values(items@)[i as int]));
            return false;
        }
        i = i + 1;
    }
    true
}

/// Absorbs a sequence: its length, then its items.
pub fn append_seq<T: Digestible>(
    items: &Vec<T>,
    context: &'static str,
    transcript: &mut DigestTranscript,
)
    requires
        seq_digestible::<T>(values(items@)),
    ensures
        final(transcript)@ == old(transcript)@ + seq_messages::<T>(
            context.spec_bytes(),
            values(items@),
        ),
{
    let ghost start = transcript@;
    let ghost views = values(items@);
    let ghost header = seq_header_messages(context.spec_bytes(), views.len());
    transcript.append_seq_header(context, items.len());
    let mut i: usize = 0;
    proof {
        assert(views.subrange(0, 0) =~= Seq::<T::Value>::empty());
        assert(header + item_messages::<T>(views.subrange(0, 0)) =~= header);
    }
    while i < items.len()
        invariant
            i <= items@.len(),
            views == values(items@),
            seq_digestible::<T>(views),
            transcript@ == start + (header + item_messages::<T>(views.subrange(0, i as int))),
        decreases items@.len() - i,
    {
        let ghost done = item_messages::<T>(views.subrange(0, i as int));
        let ghost piece = T::messages("".spec_bytes(), views[i as int]);
        proof {
            assert(T::is_digestible(views[i as int]));
        }
        items[i].append_to_transcript("", transcript);
        i = i + 1;
        proof {
            let upto = views.subrange(0, i as int);
            assert(upto.drop_last() =~= views.subrange(0, i - 1));
            assert(upto.last() == views[i - 1]);
            assert(item_messages::<T>(upto) == done + piece);
            lemma_add_assoc(start, header + done, piece);
            lemma_add_assoc(header, done, piece);
        }
    }
    proof {
        assert(views.subrange(0, views.len() as int) =~= views);
    }
}

impl Digestible for Amount {
    /// The messages of an amount.
    open spec fn messages(context: Seq<u8>, value: AmountView) -> Seq<(Seq<u8>, Seq<u8>)> {
        agg_header_messages(context, "Amount".spec_bytes())
            + ristretto_messages("commitment".spec_bytes(), value.commitment)
            + scalar_messages("masked_value".spec_bytes(), value.masked_value)
            + scalar_messages("masked_blinding".spec_bytes(), value.masked_blinding)
            + agg_closer_messages(context, "Amount".spec_bytes())
    }

    open spec fn is_digestible(value: AmountView) -> bool {
        &&& value.commitment.len() <= u32::MAX
        &&& value.masked_value.len() <= u32::MAX
        &&& value.masked_blinding.len() <= u32::MAX
    }

    proof fn lemma_messages_bind(
        context: Seq<u8>,
        a: AmountView,
        b: AmountView,
        after_a: Seq<(Seq<u8>, Seq<u8>)>,
        after_b: Seq<(Seq<u8>, Seq<u8>)>,
    ) {
        let name = "Amount".spec_bytes();
        let header = agg_header_messages(context, name);
        let closer = agg_closer_messages(context, name);
        let a1 = ristretto_messages("commitment".spec_bytes(), a.commitment);
        let a2 = scalar_messages("masked_value".spec_bytes(), a.masked_value);
        let a3 = scalar_messages("masked_blinding".spec_bytes(), a.masked_blinding);
        let ta3 = closer + after_a;
        let ta2 = a3 + ta3;
        let ta1 = a2 + ta2;
        let ta0 = a1 + ta1;
        let sa1 = header + a1;
        let sa2 = sa1 + a2;
        let sa3 = sa2 + a3;
        lemma_add_assoc(sa3, closer, after_a);
        lemma_add_assoc(sa2, a3, ta3);
        lemma_add_assoc(sa1, a2, ta2);
        lemma_add_assoc(header, a1, ta1);
        let b1 = ristretto_messages("commitment".spec_bytes(), b.commitment);
        let b2 = scalar_messages("masked_value".spec_bytes(), b.masked_value);
        let b3 = scalar_messages("masked_blinding".spec_bytes(), b.masked_blinding);
        let tb3 = closer + after_b;
        let tb2 = b3 + tb3;
        let tb1 = b2 + tb2;
        let tb0 = b1 + tb1;
        let sb1 = header + b1;
        let sb2 = sb1 + b2;
        let sb3 = sb2 + b3;
        lemma_add_assoc(sb3, closer, after_b);
        lemma_add_assoc(sb2, b3, tb3);
        lemma_add_assoc(sb1, b2, tb2);
        lemma_add_assoc(header, b1, tb1);
        lemma_same_length_bind(header, header, ta0, tb0);
        lemma_primitive_bind(
            "commitment".spec_bytes(),
            "ristretto".spec_bytes(),
            a.commitment,
            b.commitment,
            ta1,
            tb1,
        );
        lemma_primitive_bind(
            "masked_value".spec_bytes(),
            "scalar".spec_bytes(),
            a.masked_value,
            b.masked_value,
            ta2,
            tb2,
        );
        lemma_primitive_bind(
            "masked_blinding".spec_bytes(),
            "scalar".spec_bytes(),
            a.masked_blinding,
            b.masked_blinding,
            ta3,
            tb3,
        );
        lemma_same_length_bind(closer, closer, after_a, after_b);
    }

    fn check_digestible(&self) -> (ok: bool) {
        let masked_value = self.masked_value.as_scalar().to_bytes();
        let masked_blinding = self.masked_blinding.as_scalar().to_bytes();
        true
    }

    fn append_to_transcript(&self, context: &'static str, transcript: &mut DigestTranscript) {
        let name = "Amount";
        proof {
            reveal_strlit("Amount");
            lemma_name_fits(name);
        }
        let ghost value = self.value();
        let ghost start = transcript@;
        transcript.append_agg_header(context, name);
        let ghost m0 = agg_header_messages(context.spec_bytes(), name.spec_bytes());
        transcript.append_primitive("commitment", "ristretto", self.commitment.bytes.as_slice());
        let ghost part1 = ristretto_messages("commitment".spec_bytes(), value.commitment);
        let ghost m1 = m0 + part1;
        proof {
            lemma_add_assoc(start, m0, part1);
        }
        let masked_value = self.masked_value.as_scalar().to_bytes();
        transcript.append_primitive("masked_value", "scalar", masked_value.as_slice());
        let ghost part2 = scalar_messages("masked_value".spec_bytes(), value.masked_value);
        let ghost m2 = m1 + part2;
        proof {
            lemma_add_assoc(start, m1, part2);
        }
        let masked_blinding = self.masked_blinding.as_scalar().to_bytes();
        transcript.append_primitive("masked_blinding", "scalar", masked_blinding.as_slice());
        let ghost part3 = scalar_messages("masked_blinding".spec_bytes(), value.masked_blinding);
        let ghost m3 = m2 + part3;
        proof {
            lemma_add_assoc(start, m2, part3);
        }
        transcript.append_agg_closer(context, name);
        proof {
            let closer = agg_closer_messages(context.spec_bytes(), name.spec_bytes());
            lemma_add_assoc(start, m3, closer);
        }
    }
}

impl Digestible for TxOut {
    /// The messages of an output.
    open spec fn messages(context: Seq<u8>, value: TxOutView) -> Seq<(Seq<u8>, Seq<u8>)> {
        agg_header_messages(context, "TxOut".spec_bytes())
            + Amount::messages("amount".spec_bytes(), value.amount)
            + ristretto_messages("target_key".spec_bytes(), value.target_key)
            + ristretto_messages("public_key".spec_bytes(), value.public_key)
            + bytes_messages("e_fog_hint".spec_bytes(), value.e_fog_hint)
            + bytes_messages("e_memo".spec_bytes(), value.e_memo)
            + agg_closer_messages(context, "TxOut".spec_bytes())
    }

    open spec fn is_digestible(value: TxOutView) -> bool {
        &&& Amount::is_digestible(value.amount)
        &&& value.target_key.len() <= u32::MAX
        &&& value.public_key.len() <= u32::MAX
        &&& value.e_fog_hint.len() <= u32::MAX
        &&& value.e_memo.len() <= u32::MAX
    }

    proof fn lemma_messages_bind(
        context: Seq<u8>,
        a: TxOutView,
        b: TxOutView,
        after_a: Seq<(Seq<u8>, Seq<u8>)>,
        after_b: Seq<(Seq<u8>, Seq<u8>)>,
    ) {
        let name = "TxOut".spec_bytes();
        let header = agg_header_messages(context, name);
        let closer = agg_closer_messages(context, name);
        let a1 = Amount::messages("amount".spec_bytes(), a.amount);
        let a2 = ristretto_messages("target_key".spec_bytes(), a.target_key);
        let a3 = ristretto_messages("public_key".spec_bytes(), a.public_key);
        let a4 = bytes_messages("e_fog_hint".spec_bytes(), a.e_fog_hint);
        let a5 = bytes_messages("e_memo".spec_bytes(), a.e_memo);
        let ta5 = closer + after_a;
        let ta4 = a5 + ta5;
        let ta3 = a4 + ta4;
        let ta2 = a3 + ta3;
        let ta1 = a2 + ta2;
        let ta0 = a1 + ta1;
        let sa1 = header + a1;
        let sa2 = sa1 + a2;
        let sa3 = sa2 + a3;
        let sa4 = sa3 + a4;
        let sa5 = sa4 + a5;
        lemma_add_assoc(sa5, closer, after_a);
        lemma_add_assoc(sa4, a5, ta5);
        lemma_add_assoc(sa3, a4, ta4);
        lemma_add_assoc(sa2, a3, ta3);
        lemma_add_assoc(sa1, a2, ta2);
        lemma_add_assoc(header, a1, ta1);
        let b1 = Amount::messages("amount".spec_bytes(), b.amount);
        let b2 = ristretto_messages("target_key".spec_bytes(), b.target_key);
        let b3 = ristretto_messages("public_key".spec_bytes(), b.public_key);
        let b4 = bytes_messages("e_fog_hint".spec_bytes(), b.e_fog_hint);
        let b5 = bytes_messages("e_memo".spec_bytes(), b.e_memo);
        let tb5 = closer + after_b;
        let tb4 = b5 + tb5;
        let tb3 = b4 + tb4;
        let tb2 = b3 + tb3;
        let tb1 = b2 + tb2;
        let tb0 = b1 + tb1;
        let sb1 = header + b1;
        let sb2 = sb1 + b2;
        let sb3 = sb2 + b3;
        let sb4 = sb3 + b4;
        let sb5 = sb4 + b5;
        lemma_add_assoc(sb5, closer, after_b);
        lemma_add_assoc(sb4, b5, tb5);
        lemma_add_assoc(sb3, b4, tb4);
        lemma_add_assoc(sb2, b3, tb3);
        lemma_add_assoc(sb1, b2, tb2);
        lemma_add_assoc(header, b1, tb1);
        lemma_same_length_bind(header, header, ta0, tb0);
        Amount::lemma_messages_bind(
            "amount".spec_bytes(),
            a.amount,
            b.amount,
            ta1,
            tb1,
        );
        lemma_primitive_bind(
            "target_key".spec_bytes(),
            "ristretto".spec_bytes(),
            a.target_key,
            b.target_key,
            ta2,
            tb2,
        );
        lemma_primitive_bind(
            "public_key".spec_bytes(),
            "ristretto".spec_bytes(),
            a.public_key,
            b.public_key,
            ta3,
            tb3,
        );
        lemma_primitive_bind(
            "e_fog_hint".spec_bytes(),
            "bytes".spec_bytes(),
            a.e_fog_hint,
            b.e_fog_hint,
            ta4,
            tb4,
        );
        lemma_primitive_bind(
            "e_memo".spec_bytes(),
            "bytes".spec_bytes(),
            a.e_memo,
            b.e_memo,
            ta5,
            tb5,
        );
        lemma_same_length_bind(closer, closer, after_a, after_b);
    }

    fn check_digestible(&self) -> (ok: bool) {
        self.amount.check_digestible() && self.e_memo.len() <= 0xffff_ffff
    }

    fn append_to_transcript(&self, context: &'static str, transcript: &mut DigestTranscript) {
        let name = "TxOut";
        proof {
            reveal_strlit("TxOut");
            lemma_name_fits(name);
        }
        let ghost value = self.value();
        let ghost start = transcript@;
        transcript.append_agg_header(context, name);
        let ghost m0 = agg_header_messages(context.spec_bytes(), name.spec_bytes());
        self.amount.append_to_transcript("amount", transcript);
        let ghost part1 = Amount::messages("amount".spec_bytes(), value.amount);
        let ghost m1 = m0 + part1;
        proof {
            lemma_add_assoc(start, m0, part1);
        }
        transcript.append_primitive("target_key", "ristretto", self.target_key.bytes.as_slice());
        let ghost part2 = ristretto_messages("target_key".spec_bytes(), value.target_key);
        let ghost m2 = m1 + part2;
        proof {
            lemma_add_assoc(start, m1, part2);
        }
        transcript.append_primitive("public_key", "ristretto", self.public_key.bytes.as_slice());
        let ghost part3 = ristretto_messages("public_key".spec_bytes(), value.public_key);
        let ghost m3 = m2 + part3;
        proof {
            lemma_add_assoc(start, m2, part3);
        }
        transcript.append_primitive("e_fog_hint", "bytes", self.e_fog_hint.bytes.as_slice());
        let ghost part4 = bytes_messages("e_fog_hint".spec_bytes(), value.e_fog_hint);
        let ghost m4 = m3 + part4;
        proof {
            lemma_add_assoc(start, m3, part4);
        }
        transcript.append_primitive("e_memo", "bytes", self.e_memo.as_slice());
        let ghost part5 = bytes_messages("e_memo".spec_bytes(), value.e_memo);
        let ghost m5 = m4 + part5;
        proof {
            lemma_add_assoc(start, m4, part5);
        }
        transcript.append_agg_closer(context, name);
        proof {
            let closer = agg_closer_messages(context.spec_bytes(), name.spec_bytes());
            lemma_add_assoc(start, m5, closer);
        }
    }
}

impl Digestible for Range {
    /// The messages of a range.
    open spec fn messages(context: Seq<u8>, value: Range) -> Seq<(Seq<u8>, Seq<u8>)> {
        agg_header_messages(context, "Range".spec_bytes())
            + u64_messages("from".spec_bytes(), value.from)
            + u64_messages("to".spec_bytes(), value.to)
            + agg_closer_messages(context, "Range".spec_bytes())
    }

    open spec fn is_digestible(value: Range) -> bool {
        true
    }

    proof fn lemma_messages_bind(
        context: Seq<u8>,
        a: Range,
        b: Range,
        after_a: Seq<(Seq<u8>, Seq<u8>)>,
        after_b: Seq<(Seq<u8>, Seq<u8>)>,
    ) {
        let name = "Range".spec_bytes();
        let header = agg_header_messages(context, name);
        let closer = agg_closer_messages(context, name);
        let a1 = u64_messages("from".spec_bytes(), a.from);
        let a2 = u64_messages("to".spec_bytes(), a.to);
        let ta2 = closer + after_a;
        let ta1 = a2 + ta2;
        let ta0 = a1 + ta1;
        let sa1 = header + a1;
        let sa2 = sa1 + a2;
        lemma_add_assoc(sa2, closer, after_a);
        lemma_add_assoc(sa1, a2, ta2);
        lemma_add_assoc(header, a1, ta1);
        let b1 = u64_messages("from".spec_bytes(), b.from);
        let b2 = u64_messages("to".spec_bytes(), b.to);
        let tb2 = closer + after_b;
        let tb1 = b2 + tb2;
        let tb0 = b1 + tb1;
        let sb1 = header + b1;
        let sb2 = sb1 + b2;
        lemma_add_assoc(sb2, closer, after_b);
        lemma_add_assoc(sb1, b2, tb2);
        lemma_add_assoc(header, b1, tb1);
        lemma_same_length_bind(header, header, ta0, tb0);
        lemma_u64_bind(
            "from".spec_bytes(),
            a.from,
            b.from,
            ta1,
            tb1,
        );
        lemma_u64_bind(
            "to".spec_bytes(),
            a.to,
            b.to,
            ta2,
            tb2,
        );
        lemma_same_length_bind(closer, closer, after_a, after_b);
    }

    fn check_digestible(&self) -> (ok: bool) {
        true
    }

    fn append_to_transcript(&self, context: &'static str, transcript: &mut DigestTranscript) {
        let name = "Range";
        proof {
            reveal_strlit("Range");
            lemma_name_fits(name);
        }
        let ghost value = self.value();
        let ghost start = transcript@;
        transcript.append_agg_header(context, name);
        let ghost m0 = agg_header_messages(context.spec_bytes(), name.spec_bytes());
        transcript.append_u64("from", self.from);
        let ghost part1 = u64_messages("from".spec_bytes(), value.from);
        let ghost m1 = m0 + part1;
        proof {
            lemma_add_assoc(start, m0, part1);
        }
        transcript.append_u64("to", self.to);
        let ghost part2 = u64_messages("to".spec_bytes(), value.to);
        let ghost m2 = m1 + part2;
        proof {
            lemma_add_assoc(start, m1, part2);
        }
        transcript.append_agg_closer(context, name);
        proof {
            let closer = agg_closer_messages(context.spec_bytes(), name.spec_bytes());
            lemma_add_assoc(start, m2, closer);
        }
    }
}

impl Digestible for TxOutMembershipElement {
    /// The messages of an element of a membership proof.
    open spec fn messages(context: Seq<u8>, value: ElementView) -> Seq<(Seq<u8>, Seq<u8>)> {
        agg_header_messages(context, "TxOutMembershipElement".spec_bytes())
            + Range::messages("range".spec_bytes(), value.range)
            + bytes_messages("hash".spec_bytes(), value.hash)
            + agg_closer_messages(context, "TxOutMembershipElement".spec_bytes())
    }

    open spec fn is_digestible(value: ElementView) -> bool {
        &&& Range::is_digestible(value.range)
        &&& value.hash.len() <= u32::MAX
    }

    proof fn lemma_messages_bind(
        context: Seq<u8>,
        a: ElementView,
        b: ElementView,
        after_a: Seq<(Seq<u8>, Seq<u8>)>,
        after_b: Seq<(Seq<u8>, Seq<u8>)>,
    ) {
        let name = "TxOutMembershipElement".spec_bytes();
        let header = agg_header_messages(context, name);
        let closer = agg_closer_messages(context, name);
        let a1 = Range::messages("range".spec_bytes(), a.range);
        let a2 = bytes_messages("hash".spec_bytes(), a.hash);
        let ta2 = closer + after_a;
        let ta1 = a2 + ta2;
        let ta0 = a1 + ta1;
        let sa1 = header + a1;
        let sa2 = sa1 + a2;
        lemma_add_assoc(sa2, closer, after_a);
        lemma_add_assoc(sa1, a2, ta2);
        lemma_add_assoc(header, a1, ta1);
        let b1 = Range::messages("range".spec_bytes(), b.range);
        let b2 = bytes_messages("hash".spec_bytes(), b.hash);
        let tb2 = closer + after_b;
        let tb1 = b2 + tb2;
        let tb0 = b1 + tb1;
        let sb1 = header + b1;
        let sb2 = sb1 + b2;
        lemma_add_assoc(sb2, closer, after_b);
        lemma_add_assoc(sb1, b2, tb2);
        lemma_add_assoc(header, b1, tb1);
        lemma_same_length_bind(header, header, ta0, tb0);
        Range::lemma_messages_bind(
            "range".spec_bytes(),
            a.range,
            b.range,
            ta1,
            tb1,
        );
        lemma_primitive_bind(
            "hash".spec_bytes(),
            "bytes".spec_bytes(),
            a.hash,
            b.hash,
            ta2,
            tb2,
        );
        lemma_same_length_bind(closer, closer, after_a, after_b);
    }

    fn check_digestible(&self) -> (ok: bool) {
        self.range.check_digestible()
    }

    fn append_to_transcript(&self, context: &'static str, transcript: &mut DigestTranscript) {
        let name = "TxOutMembershipElement";
        proof {
            reveal_strlit("TxOutMembershipElement");
            lemma_name_fits(name);
        }
        let ghost value = self.value();
        let ghost start = transcript@;
        transcript.append_agg_header(context, name);
        let ghost m0 = agg_header_messages(context.spec_bytes(), name.spec_bytes());
        self.range.append_to_transcript("range", transcript);
        let ghost part1 = Range::messages("range".spec_bytes(), value.range);
        let ghost m1 = m0 + part1;
        proof {
            lemma_add_assoc(start, m0, part1);
        }
        transcript.append_primitive("hash", "bytes", self.hash.0.as_slice());
        let ghost part2 = bytes_messages("hash".spec_bytes(), value.hash);
        let ghost m2 = m1 + part2;
        proof {
            lemma_add_assoc(start, m1, part2);
        }
        transcript.append_agg_closer(context, name);
        proof {
            let closer = agg_closer_messages(context.spec_bytes(), name.spec_bytes());
            lemma_add_assoc(start, m2, closer);
        }
    }
}

impl Digestible for TxOutMembershipProof {
    /// The messages of a membership proof.
    open spec fn messages(context: Seq<u8>, value: MembershipProofView) -> Seq<(Seq<u8>, Seq<u8>)> {
        agg_header_messages(context, "TxOutMembershipProof".spec_bytes())
            + u64_messages("index".spec_bytes(), value.index)
            + u64_messages("highest_index".spec_bytes(), value.highest_index)
            + seq_messages::<TxOutMembershipElement>("elements".spec_bytes(), value.elements)
            + agg_closer_messages(context, "TxOutMembershipProof".spec_bytes())
    }

    open spec fn is_digestible(value: MembershipProofView) -> bool {
        &&& seq_digestible::<TxOutMembershipElement>(value.elements)
    }

    proof fn lemma_messages_bind(
        context: Seq<u8>,
        a: MembershipProofView,
        b: MembershipProofView,
        after_a: Seq<(Seq<u8>, Seq<u8>)>,
        after_b: Seq<(Seq<u8>, Seq<u8>)>,
    ) {
        let name = "TxOutMembershipProof".spec_bytes();
        let header = agg_header_messages(context, name);
        let closer = agg_closer_messages(context, name);
        let a1 = u64_messages("index".spec_bytes(), a.index);
        let a2 = u64_messages("highest_index".spec_bytes(), a.highest_index);
        let a3 = seq_messages::<TxOutMembershipElement>("elements".spec_bytes(), a.elements);
        let ta3 = closer + after_a;
        let ta2 = a3 + ta3;
        let ta1 = a2 + ta2;
        let ta0 = a1 + ta1;
        let sa1 = header + a1;
        let sa2 = sa1 + a2;
        let sa3 = sa2 + a3;
        lemma_add_assoc(sa3, closer, after_a);
        lemma_add_assoc(sa2, a3, ta3);
        lemma_add_assoc(sa1, a2, ta2);
        lemma_add_assoc(header, a1, ta1);
        let b1 = u64_messages("index".spec_bytes(), b.index);
        let b2 = u64_messages("highest_index".spec_bytes(), b.highest_index);
        let b3 = seq_messages::<TxOutMembershipElement>("elements".spec_bytes(), b.elements);
        let tb3 = closer + after_b;
        let tb2 = b3 + tb3;
        let tb1 = b2 + tb2;
        let tb0 = b1 + tb1;
        let sb1 = header + b1;
        let sb2 = sb1 + b2;
        let sb3 = sb2 + b3;
        lemma_add_assoc(sb3, closer, after_b);
        lemma_add_assoc(sb2, b3, tb3);
        lemma_add_assoc(sb1, b2, tb2);
        lemma_add_assoc(header, b1, tb1);
        lemma_same_length_bind(header, header, ta0, tb0);
        lemma_u64_bind(
            "index".spec_bytes(),
            a.index,
            b.index,
            ta1,
            tb1,
        );
        lemma_u64_bind(
            "highest_index".spec_bytes(),
            a.highest_index,
            b.highest_index,
            ta2,
            tb2,
        );
        lemma_seq_bind::<TxOutMembershipElement>(
            "elements".spec_bytes(),
            a.elements,
            b.elements,
            ta3,
            tb3,
        );
        lemma_same_length_bind(closer, closer, after_a, after_b);
    }

    fn check_digestible(&self) -> (ok: bool) {
        check_seq_digestible::<TxOutMembershipElement>(&self.elements)
    }

    fn append_to_transcript(&self, context: &'static str, transcript: &mut DigestTranscript) {
        let name = "TxOutMembershipProof";
        proof {
            reveal_strlit("TxOutMembershipProof");
            lemma_name_fits(name);
        }
        let ghost value = self.value();
        let ghost start = transcript@;
        transcript.append_agg_header(context, name);
        let ghost m0 = agg_header_messages(context.spec_bytes(), name.spec_bytes());
        transcript.append_u64("index", self.index);
        let ghost part1 = u64_messages("index".spec_bytes(), value.index);
        let ghost m1 = m0 + part1;
        proof {
            lemma_add_assoc(start, m0, part1);
        }
        transcript.append_u64("highest_index", self.highest_index);
        let ghost part2 = u64_messages("highest_index".spec_bytes(), value.highest_index);
        let ghost m2 = m1 + part2;
        proof {
            lemma_add_assoc(start, m1, part2);
        }
        append_seq::<TxOutMembershipElement>(&self.elements, "elements", transcript);
        let ghost part3 = seq_messages::<TxOutMembershipElement>("elements".spec_bytes(), value.elements);
        let ghost m3 = m2 + part3;
        proof {
            lemma_add_assoc(start, m2, part3);
        }
        transcript.append_agg_closer(context, name);
        proof {
            let closer = agg_closer_messages(context.spec_bytes(), name.spec_bytes());
            lemma_add_assoc(start, m3, closer);
        }
    }
}

impl Digestible for TxIn {
    /// The messages of an input.
    open spec fn messages(context: Seq<u8>, value: TxInView) -> Seq<(Seq<u8>, Seq<u8>)> {
        agg_header_messages(context, "TxIn".spec_bytes())
            + seq_messages::<TxOut>("ring".spec_bytes(), value.ring)
            + seq_messages::<TxOutMembershipProof>("proofs".spec_bytes(), value.proofs)
            + agg_closer_messages(context, "TxIn".spec_bytes())
    }

    open spec fn is_digestible(value: TxInView) -> bool {
        &&& seq_digestible::<TxOut>(value.ring)
        &&& seq_digestible::<TxOutMembershipProof>(value.proofs)
    }

    proof fn lemma_messages_bind(
        context: Seq<u8>,
        a: TxInView,
        b: TxInView,
        after_a: Seq<(Seq<u8>, Seq<u8>)>,
        after_b: Seq<(Seq<u8>, Seq<u8>)>,
    ) {
        let name = "TxIn".spec_bytes();
        let header = agg_header_messages(context, name);
        let closer = agg_closer_messages(context, name);
        let a1 = seq_messages::<TxOut>("ring".spec_bytes(), a.ring);
        let a2 = seq_messages::<TxOutMembershipProof>("proofs".spec_bytes(), a.proofs);
        let ta2 = closer + after_a;
        let ta1 = a2 + ta2;
        let ta0 = a1 + ta1;
        let sa1 = header + a1;
        let sa2 = sa1 + a2;
        lemma_add_assoc(sa2, closer, after_a);
        lemma_add_assoc(sa1, a2, ta2);
        lemma_add_assoc(header, a1, ta1);
        let b1 = seq_messages::<TxOut>("ring".spec_bytes(), b.ring);
        let b2 = seq_messages::<TxOutMembershipProof>("proofs".spec_bytes(), b.proofs);
        let tb2 = closer + after_b;
        let tb1 = b2 + tb2;
        let tb0 = b1 + tb1;
        let sb1 = header + b1;
        let sb2 = sb1 + b2;
        lemma_add_assoc(sb2, closer, after_b);
        lemma_add_assoc(sb1, b2, tb2);
        lemma_add_assoc(header, b1, tb1);
        lemma_same_length_bind(header, header, ta0, tb0);
        lemma_seq_bind::<TxOut>(
            "ring".spec_bytes(),
            a.ring,
            b.ring,
            ta1,
            tb1,
        );
        lemma_seq_bind::<TxOutMembershipProof>(
            "proofs".spec_bytes(),
            a.proofs,
            b.proofs,
            ta2,
            tb2,
        );
        lemma_same_length_bind(closer, closer, after_a, after_b);
    }

    fn check_digestible(&self) -> (ok: bool) {
        check_seq_digestible::<TxOut>(&self.ring) && check_seq_digestible::<TxOutMembershipProof>(&self.proofs)
    }

    fn append_to_transcript(&self, context: &'static str, transcript: &mut DigestTranscript) {
        let name = "TxIn";
        proof {
            reveal_strlit("TxIn");
            lemma_name_fits(name);
        }
        let ghost value = self.value();
        let ghost start = transcript@;
        transcript.append_agg_header(context, name);
        let ghost m0 = agg_header_messages(context.spec_bytes(), name.spec_bytes());
        append_seq::<TxOut>(&self.ring, "ring", transcript);
        let ghost part1 = seq_messages::<TxOut>("ring".spec_bytes(), value.ring);
        let ghost m1 = m0 + part1;
        proof {
            lemma_add_assoc(start, m0, part1);
        }
        append_seq::<TxOutMembershipProof>(&self.proofs, "proofs", transcript);
        let ghost part2 = seq_messages::<TxOutMembershipProof>("proofs".spec_bytes(), value.proofs);
        let ghost m2 = m1 + part2;
        proof {
            lemma_add_assoc(start, m1, part2);
        }
        transcript.append_agg_closer(context, name);
        proof {
            let closer = agg_closer_messages(context.spec_bytes(), name.spec_bytes());
            lemma_add_assoc(start, m2, closer);
        }
    }
}

impl Digestible for TxPrefix {
    /// The messages of a prefix.
    open spec fn messages(context: Seq<u8>, value: TxPrefixView) -> Seq<(Seq<u8>, Seq<u8>)> {
        agg_header_messages(context, "TxPrefix".spec_bytes())
            + seq_messages::<TxIn>("inputs".spec_bytes(), value.inputs)
            + seq_messages::<TxOut>("outputs".spec_bytes(), value.outputs)
            + u64_messages("fee".spec_bytes(), value.fee)
            + u64_messages("tombstone_block".spec_bytes(), value.tombstone_block)
            + agg_closer_messages(context, "TxPrefix".spec_bytes())
    }

    open spec fn is_digestible(value: TxPrefixView) -> bool {
        &&& seq_digestible::<TxIn>(value.inputs)
        &&& seq_digestible::<TxOut>(value.outputs)
    }

    proof fn lemma_messages_bind(
        context: Seq<u8>,
        a: TxPrefixView,
        b: TxPrefixView,
        after_a: Seq<(Seq<u8>, Seq<u8>)>,
        after_b: Seq<(Seq<u8>, Seq<u8>)>,
    ) {
        let name = "TxPrefix".spec_bytes();
        let header = agg_header_messages(context, name);
        let closer = agg_closer_messages(context, name);
        let a1 = seq_messages::<TxIn>("inputs".spec_bytes(), a.inputs);
        let a2 = seq_messages::<TxOut>("outputs".spec_bytes(), a.outputs);
        let a3 = u64_messages("fee".spec_bytes(), a.fee);
        let a4 = u64_messages("tombstone_block".spec_bytes(), a.tombstone_block);
        let ta4 = closer + after_a;
        let ta3 = a4 + ta4;
        let ta2 = a3 + ta3;
        let ta1 = a2 + ta2;
        let ta0 = a1 + ta1;
        let sa1 = header + a1;
        let sa2 = sa1 + a2;
        let sa3 = sa2 + a3;
        let sa4 = sa3 + a4;
        lemma_add_assoc(sa4, closer, after_a);
        lemma_add_assoc(sa3, a4, ta4);
        lemma_add_assoc(sa2, a3, ta3);
        lemma_add_assoc(sa1, a2, ta2);
        lemma_add_assoc(header, a1, ta1);
        let b1 = seq_messages::<TxIn>("inputs".spec_bytes(), b.inputs);
        let b2 = seq_messages::<TxOut>("outputs".spec_bytes(), b.outputs);
        let b3 = u64_messages("fee".spec_bytes(), b.fee);
        let b4 = u64_messages("tombstone_block".spec_bytes(), b.tombstone_block);
        let tb4 = closer + after_b;
        let tb3 = b4 + tb4;
        let tb2 = b3 + tb3;
        let tb1 = b2 + tb2;
        let tb0 = b1 + tb1;
        let sb1 = header + b1;
        let sb2 = sb1 + b2;
        let sb3 = sb2 + b3;
        let sb4 = sb3 + b4;
        lemma_add_assoc(sb4, closer, after_b);
        lemma_add_assoc(sb3, b4, tb4);
        lemma_add_assoc(sb2, b3, tb3);
        lemma_add_assoc(sb1, b2, tb2);
        lemma_add_assoc(header, b1, tb1);
        lemma_same_length_bind(header, header, ta0, tb0);
        lemma_seq_bind::<TxIn>(
            "inputs".spec_bytes(),
            a.inputs,
            b.inputs,
            ta1,
            tb1,
        );
        lemma_seq_bind::<TxOut>(
            "outputs".spec_bytes(),
            a.outputs,
            b.outputs,
            ta2,
            tb2,
        );
        lemma_u64_bind(
            "fee".spec_bytes(),
            a.fee,
            b.fee,
            ta3,
            tb3,
        );
        lemma_u64_bind(
            "tombstone_block".spec_bytes(),
            a.tombstone_block,
            b.tombstone_block,
            ta4,
            tb4,
        );
        lemma_same_length_bind(closer, closer, after_a, after_b);
    }

    fn check_digestible(&self) -> (ok: bool) {
        check_seq_digestible::<TxIn>(&self.inputs) && check_seq_digestible::<TxOut>(&self.outputs)
    }

    #[verifier::rlimit(40)]
    fn append_to_transcript(&self, context: &'static str, transcript: &mut DigestTranscript) {
        let name = "TxPrefix";
        proof {
            reveal_strlit("TxPrefix");
            lemma_name_fits(name);
        }
        let ghost value = self.value();
        let ghost start = transcript@;
        transcript.append_agg_header(context, name);
        let ghost m0 = agg_header_messages(context.spec_bytes(), name.spec_bytes());
        append_seq::<TxIn>(&self.inputs, "inputs", transcript);
        let ghost part1 = seq_messages::<TxIn>("inputs".spec_bytes(), value.inputs);
        let ghost m1 = m0 + part1;
        proof {
            lemma_add_assoc(start, m0, part1);
        }
        append_seq::<TxOut>(&self.outputs, "outputs", transcript);
        let ghost part2 = seq_messages::<TxOut>("outputs".spec_bytes(), value.outputs);
        let ghost m2 = m1 + part2;
        proof {
            lemma_add_assoc(start, m1, part2);
        }
        transcript.append_u64("fee", self.fee);
        let ghost part3 = u64_messages("fee".spec_bytes(), value.fee);
        let ghost m3 = m2 + part3;
        proof {
            lemma_add_assoc(start, m2, part3);
        }
        transcript.append_u64("tombstone_block", self.tombstone_block);
        let ghost part4 = u64_messages("tombstone_block".spec_bytes(), value.tombstone_block);
        let ghost m4 = m3 + part4;
        proof {
            lemma_add_assoc(start, m3, part4);
        }
        transcript.append_agg_closer(context, name);
        proof {
            let closer = agg_closer_messages(context.spec_bytes(), name.spec_bytes());
            lemma_add_assoc(start, m4, closer);
        }
    }
}

impl Digestible for KeyImage {
    /// The messages of a key image: those of a compressed group element.
    open spec fn messages(context: Seq<u8>, value: Seq<u8>) -> Seq<(Seq<u8>, Seq<u8>)> {
        ristretto_messages(context, value)
    }

    open spec fn is_digestible(value: Seq<u8>) -> bool {
        value.len() <= u32::MAX
    }

    proof fn lemma_messages_bind(
        context: Seq<u8>,
        a: Seq<u8>,
        b: Seq<u8>,
        after_a: Seq<(Seq<u8>, Seq<u8>)>,
        after_b: Seq<(Seq<u8>, Seq<u8>)>,
    ) {
        lemma_primitive_bind(context, "ristretto".spec_bytes(), a, b, after_a, after_b);
    }

    fn check_digestible(&self) -> (ok: bool) {
        true
    }

    fn append_to_transcript(&self, context: &'static str, transcript: &mut DigestTranscript) {
        transcript.append_primitive(context, "ristretto", self.bytes.as_slice());
    }
}

impl Digestible for RingSignature {
    /// The messages of a signature.
    open spec fn messages(context: Seq<u8>, value: RingSignatureView) -> Seq<(Seq<u8>, Seq<u8>)> {
        agg_header_messages(context, "RingSignature".spec_bytes())
            + seq_messages::<KeyImage>("key_images".spec_bytes(), value.key_images)
            + bytes_messages("signature_bytes".spec_bytes(), value.signature_bytes)
            + agg_closer_messages(context, "RingSignature".spec_bytes())
    }

    open spec fn is_digestible(value: RingSignatureView) -> bool {
        &&& seq_digestible::<KeyImage>(value.key_images)
        &&& value.signature_bytes.len() <= u32::MAX
    }

    proof fn lemma_messages_bind(
        context: Seq<u8>,
        a: RingSignatureView,
        b: RingSignatureView,
        after_a: Seq<(Seq<u8>, Seq<u8>)>,
        after_b: Seq<(Seq<u8>, Seq<u8>)>,
    ) {
        let name = "RingSignature".spec_bytes();
        let header = agg_header_messages(context, name);
        let closer = agg_closer_messages(context, name);
        let a1 = seq_messages::<KeyImage>("key_images".spec_bytes(), a.key_images);
        let a2 = bytes_messages("signature_bytes".spec_bytes(), a.signature_bytes);
        let ta2 = closer + after_a;
        let ta1 = a2 + ta2;
        let ta0 = a1 + ta1;
        let sa1 = header + a1;
        let sa2 = sa1 + a2;
        lemma_add_assoc(sa2, closer, after_a);
        lemma_add_assoc(sa1, a2, ta2);
        lemma_add_assoc(header, a1, ta1);
        let b1 = seq_messages::<KeyImage>("key_images".spec_bytes(), b.key_images);
        let b2 = bytes_messages("signature_bytes".spec_bytes(), b.signature_bytes);
        let tb2 = closer + after_b;
        let tb1 = b2 + tb2;
        let tb0 = b1 + tb1;
        let sb1 = header + b1;
        let sb2 = sb1 + b2;
        lemma_add_assoc(sb2, closer, after_b);
        lemma_add_assoc(sb1, b2, tb2);
        lemma_add_assoc(header, b1, tb1);
        lemma_same_length_bind(header, header, ta0, tb0);
        lemma_seq_bind::<KeyImage>(
            "key_images".spec_bytes(),
            a.key_images,
            b.key_images,
            ta1,
            tb1,
        );
        lemma_primitive_bind(
            "signature_bytes".spec_bytes(),
            "bytes".spec_bytes(),
            a.signature_bytes,
            b.signature_bytes,
            ta2,
            tb2,
        );
        lemma_same_length_bind(closer, closer, after_a, after_b);
    }

    fn check_digestible(&self) -> (ok: bool) {
        check_seq_digestible::<KeyImage>(&self.key_images) && self.signature_bytes.len() <= 0xffff_ffff
    }

    fn append_to_transcript(&self, context: &'static str, transcript: &mut DigestTranscript) {
        let name = "RingSignature";
        proof {
            reveal_strlit("RingSignature");
            lemma_name_fits(name);
        }
        let ghost value = self.value();
        let ghost start = transcript@;
        transcript.append_agg_header(context, name);
        let ghost m0 = agg_header_messages(context.spec_bytes(), name.spec_bytes());
        append_seq::<KeyImage>(&self.key_images, "key_images", transcript);
        let ghost part1 = seq_messages::<KeyImage>("key_images".spec_bytes(), value.key_images);
        let ghost m1 = m0 + part1;
        proof {
            lemma_add_assoc(start, m0, part1);
        }
        transcript.append_primitive("signature_bytes", "bytes", self.signature_bytes.as_slice());
        let ghost part2 = bytes_messages("signature_bytes".spec_bytes(), value.signature_bytes);
        let ghost m2 = m1 + part2;
        proof {
            lemma_add_assoc(start, m1, part2);
        }
        transcript.append_agg_closer(context, name);
        proof {
            let closer = agg_closer_messages(context.spec_bytes(), name.spec_bytes());
            lemma_add_assoc(start, m2, closer);
        }
    }
}

impl Digestible for Tx {
    /// The messages of a transaction.
    open spec fn messages(context: Seq<u8>, value: TxView) -> Seq<(Seq<u8>, Seq<u8>)> {
        agg_header_messages(context, "Tx".spec_bytes())
            + TxPrefix::messages("prefix".spec_bytes(), value.prefix)
            + RingSignature::messages("signature".spec_bytes(), value.signature)
            + agg_closer_messages(context, "Tx".spec_bytes())
    }

    open spec fn is_digestible(value: TxView) -> bool {
        &&& TxPrefix::is_digestible(value.prefix)
        &&& RingSignature::is_digestible(value.signature)
    }

    proof fn lemma_messages_bind(
        context: Seq<u8>,
        a: TxView,
        b: TxView,
        after_a: Seq<(Seq<u8>, Seq<u8>)>,
        after_b: Seq<(Seq<u8>, Seq<u8>)>,
    ) {
        let name = "Tx".spec_bytes();
        let header = agg_header_messages(context, name);
        let closer = agg_closer_messages(context, name);
        let a1 = TxPrefix::messages("prefix".spec_bytes(), a.prefix);
        let a2 = RingSignature::messages("signature".spec_bytes(), a.signature);
        let ta2 = closer + after_a;
        let ta1 = a2 + ta2;
        let ta0 = a1 + ta1;
        let sa1 = header + a1;
        let sa2 = sa1 + a2;
        lemma_add_assoc(sa2, closer, after_a);
        lemma_add_assoc(sa1, a2, ta2);
        lemma_add_assoc(header, a1, ta1);
        let b1 = TxPrefix::messages("prefix".spec_bytes(), b.prefix);
        let b2 = RingSignature::messages("signature".spec_bytes(), b.signature);
        let tb2 = closer + after_b;
        let tb1 = b2 + tb2;
        let tb0 = b1 + tb1;
        let sb1 = header + b1;
        let sb2 = sb1 + b2;
        lemma_add_assoc(sb2, closer, after_b);
        lemma_add_assoc(sb1, b2, tb2);
        lemma_add_assoc(header, b1, tb1);
        lemma_same_length_bind(header, header, ta0, tb0);
        TxPrefix::lemma_messages_bind(
            "prefix".spec_bytes(),
            a.prefix,
            b.prefix,
            ta1,
            tb1,
        );
        RingSignature::lemma_messages_bind(
            "signature".spec_bytes(),
            a.signature,
            b.signature,
            ta2,
            tb2,
        );
        lemma_same_length_bind(closer, closer, after_a, after_b);
    }

    fn check_digestible(&self) -> (ok: bool) {
        self.prefix.check_digestible() && self.signature.check_digestible()
    }

    fn append_to_transcript(&self, context: &'static str, transcript: &mut DigestTranscript) {
        let name = "Tx";
        proof {
            reveal_strlit("Tx");
            lemma_name_fits(name);
        }
        let ghost value = self.value();
        let ghost start = transcript@;
        transcript.append_agg_header(context, name);
        let ghost m0 = agg_header_messages(context.spec_bytes(), name.spec_bytes());
        self.prefix.append_to_transcript("prefix", transcript);
        let ghost part1 = TxPrefix::messages("prefix".spec_bytes(), value.prefix);
        let ghost m1 = m0 + part1;
        proof {
            lemma_add_assoc(start, m0, part1);
        }
        self.signature.append_to_transcript("signature", transcript);
        let ghost part2 = RingSignature::messages("signature".spec_bytes(), value.signature);
        let ghost m2 = m1 + part2;
        proof {
            lemma_add_assoc(start, m1, part2);
        }
        transcript.append_agg_closer(context, name);
        proof {
            let closer = agg_closer_messages(context.spec_bytes(), name.spec_bytes());
            lemma_add_assoc(start, m2, closer);
        }
    }
}

} // verus!
