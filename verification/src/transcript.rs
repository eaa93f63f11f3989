//! Hashing by transcript: a value is absorbed into a Merlin transcript as a
//! sequence of labelled messages, and the transcript's challenge is the
//! hash. The transcript is `merlin::Transcript`.

use vstd::prelude::*;
use vstd::string::StringSliceAdditionalSpecFns;
use crate::encoding::le_bytes;

verus! {

/// Makes `merlin::Transcript` known as a type. Nothing is assumed of what
/// a transcript holds but what the functions below state.
#[verifier::external_type_specification]
#[verifier::external_body]
pub struct ExTranscript(merlin::Transcript);

/// What a transcript has absorbed so far: each message with its label, in
/// the order in which they were appended.
pub uninterp spec fn transcript_messages(transcript: merlin::Transcript) -> Seq<(Seq<u8>, Seq<u8>)>;

/// The 32 challenge bytes with label `label` that a transcript gives which
/// has absorbed `messages`.
pub uninterp spec fn merlin_challenge(messages: Seq<(Seq<u8>, Seq<u8>)>, label: Seq<u8>) -> Seq<u8>;

/// Calls `Transcript::new`. Trusted: a new transcript has absorbed one
/// message, the given label under the label `dom-sep`.
#[verifier::external_body]
fn transcript_new(label: &'static str) -> (transcript: merlin::Transcript)
    ensures
        transcript_messages(transcript) == seq![("dom-sep".spec_bytes(), label.spec_bytes())],
{
    merlin::Transcript::new(label.as_bytes())
}

/// Calls `Transcript::append_message`. Trusted: the message is absorbed
/// after those before it, under its label. The call refuses a message
/// whose length does not fit in 32 bits.
#[verifier::external_body]
fn transcript_append(transcript: &mut merlin::Transcript, label: &'static str, message: &[u8])
    requires
        message@.len() <= u32::MAX,
    ensures
        transcript_messages(*final(transcript)) == transcript_messages(*old(transcript)).push(
            (label.spec_bytes(), message@),
        ),
{
    transcript.append_message(label.as_bytes(), message)
}

/// Calls `Transcript::challenge_bytes` for 32 bytes. Trusted: the bytes
/// are a function of what the transcript has absorbed and of the label.
#[verifier::external_body]
fn transcript_challenge(transcript: merlin::Transcript, label: &'static str) -> (challenge: [u8; 32])
    ensures
        challenge@ == merlin_challenge(transcript_messages(transcript), label.spec_bytes()),
{
    let mut transcript = transcript;
    let mut challenge = [0u8; 32];
    transcript.challenge_bytes(label.as_bytes(), &mut challenge);
    challenge
}

/// The messages that stand for a primitive value of the type named
/// `kind`, in the place named `context`.
pub open spec fn primitive_messages(
    context: Seq<u8>,
    kind: Seq<u8>,
    data: Seq<u8>,
) -> Seq<(Seq<u8>, Seq<u8>)> {
    seq![(context, "prim".spec_bytes()), (kind, data)]
}

/// The messages that stand for an unsigned 64-bit integer.
pub open spec fn u64_messages(context: Seq<u8>, x: u64) -> Seq<(Seq<u8>, Seq<u8>)> {
    primitive_messages(context, "uint".spec_bytes(), le_bytes(x as nat, 8))
}

/// The messages that stand for a string of bytes.
pub open spec fn bytes_messages(context: Seq<u8>, bytes: Seq<u8>) -> Seq<(Seq<u8>, Seq<u8>)> {
    primitive_messages(context, "bytes".spec_bytes(), bytes)
}

/// The messages that open a sequence of `len` items.
pub open spec fn seq_header_messages(context: Seq<u8>, len: nat) -> Seq<(Seq<u8>, Seq<u8>)> {
    seq![(context, "seq".spec_bytes()), ("len".spec_bytes(), le_bytes(len, 8))]
}

/// The messages that open a structure of the type named `name`.
pub open spec fn agg_header_messages(context: Seq<u8>, name: Seq<u8>) -> Seq<(Seq<u8>, Seq<u8>)> {
    seq![(context, "agg".spec_bytes()), ("name".spec_bytes(), name)]
}

/// The messages that close a structure of the type named `name`.
pub open spec fn agg_closer_messages(context: Seq<u8>, name: Seq<u8>) -> Seq<(Seq<u8>, Seq<u8>)> {
    seq![(context, "agg-end".spec_bytes()), ("name".spec_bytes(), name)]
}

/// The hash of a value whose messages are `messages`: the challenge
/// `digest32` of a transcript for `digestible` that has absorbed them.
pub open spec fn digest32_of(messages: Seq<(Seq<u8>, Seq<u8>)>) -> Seq<u8> {
    merlin_challenge(initial_messages() + messages, "digest32".spec_bytes())
}

/// What a transcript for `digestible` has absorbed before any value.
pub open spec fn initial_messages() -> Seq<(Seq<u8>, Seq<u8>)> {
    seq![("dom-sep".spec_bytes(), "digestible".spec_bytes())]
}

/// A transcript that is absorbing the messages of one value.
pub struct DigestTranscript {
    transcript: merlin::Transcript,
}

impl View for DigestTranscript {
    type V = Seq<(Seq<u8>, Seq<u8>)>;

    /// All that the transcript has absorbed so far.
    closed spec fn view(&self) -> Seq<(Seq<u8>, Seq<u8>)> {
        transcript_messages(self.transcript)
    }
}

impl DigestTranscript {
    /// A transcript that has absorbed nothing of a value yet.
    pub fn new() -> (transcript: DigestTranscript)
        ensures
            transcript@ == initial_messages(),
    {
        DigestTranscript { transcript: transcript_new("digestible") }
    }

    /// Absorbs one message.
    pub fn append_bytes(&mut self, context: &'static str, data: &[u8])
        requires
            data@.len() <= u32::MAX,
        ensures
            final(self)@ == old(self)@.push((context.spec_bytes(), data@)),
    {
        transcript_append(&mut self.transcript, context, data);
    }

    /// Absorbs a primitive value of the kind `kind`.
    pub fn append_primitive(&mut self, context: &'static str, kind: &'static str, data: &[u8])
        requires
            data@.len() <= u32::MAX,
        ensures
            final(self)@ == old(self)@ + primitive_messages(
                context.spec_bytes(),
                kind.spec_bytes(),
                data@,
            ),
    {
        let tag = "prim";
        proof {
            reveal_strlit("prim");
            lemma_name_fits(tag);
        }
        self.append_bytes(context, tag.as_bytes());
        self.append_bytes(kind, data);
        proof {
            assert(self@ =~= old(self)@ + primitive_messages(
                context.spec_bytes(),
                kind.spec_bytes(),
                data@,
            ));
        }
    }

    /// Absorbs an unsigned 64-bit integer.
    pub fn append_u64(&mut self, context: &'static str, x: u64)
        ensures
            final(self)@ == old(self)@ + u64_messages(context.spec_bytes(), x),
    {
        let bytes = u64_le_bytes(x);
        self.append_primitive(context, "uint", bytes.as_slice());
    }

    /// Absorbs a string of bytes.
    pub fn append_byte_string(&mut self, context: &'static str, bytes: &[u8])
        requires
            bytes@.len() <= u32::MAX,
        ensures
            final(self)@ == old(self)@ + bytes_messages(context.spec_bytes(), bytes@),
    {
        self.append_primitive(context, "bytes", bytes);
    }

    /// Absorbs the opening of a sequence of `len` items.
    pub fn append_seq_header(&mut self, context: &'static str, len: usize)
        ensures
            final(self)@ == old(self)@ + seq_header_messages(context.spec_bytes(), len as nat),
    {
        let tag = "seq";
        let len_bytes = u64_le_bytes(len as u64);
        proof {
            reveal_strlit("seq");
            lemma_name_fits(tag);
        }
        self.append_bytes(context, tag.as_bytes());
        self.append_bytes("len", len_bytes.as_slice());
        proof {
            assert(self@ =~= old(self)@ + seq_header_messages(context.spec_bytes(), len as nat));
        }
    }

    /// Absorbs the opening of a structure of the kind `name`.
    pub fn append_agg_header(&mut self, context: &'static str, name: &'static str)
        requires
            name.spec_bytes().len() <= u32::MAX,
        ensures
            final(self)@ == old(self)@ + agg_header_messages(
                context.spec_bytes(),
                name.spec_bytes(),
            ),
    {
        let tag = "agg";
        proof {
            reveal_strlit("agg");
            lemma_name_fits(tag);
        }
        self.append_bytes(context, tag.as_bytes());
        self.append_bytes("name", name.as_bytes());
        proof {
            assert(self@ =~= old(self)@ + agg_header_messages(
                context.spec_bytes(),
                name.spec_bytes(),
            ));
        }
    }

    /// Absorbs the closing of a structure of the kind `name`.
    pub fn append_agg_closer(&mut self, context: &'static str, name: &'static str)
        requires
            name.spec_bytes().len() <= u32::MAX,
        ensures
            final(self)@ == old(self)@ + agg_closer_messages(
                context.spec_bytes(),
                name.spec_bytes(),
            ),
    {
        let tag = "agg-end";
        proof {
            reveal_strlit("agg-end");
            lemma_name_fits(tag);
        }
        self.append_bytes(context, tag.as_bytes());
        self.append_bytes("name", name.as_bytes());
        proof {
            assert(self@ =~= old(self)@ + agg_closer_messages(
                context.spec_bytes(),
                name.spec_bytes(),
            ));
        }
    }

    /// The hash: the challenge of the transcript.
    pub fn extract_digest(self) -> (digest: [u8; 32])
        ensures
            digest@ == merlin_challenge(self@, "digest32".spec_bytes()),
    {
        transcript_challenge(self.transcript, "digest32")
    }
}

/// The eight bytes that encode `x`, least significant first.
pub fn u64_le_bytes(x: u64) -> (bytes: [u8; 8])
    ensures
        bytes@ == le_bytes(x as nat, 8),
{
    let mut bytes = [0u8;8];
    let mut rest: u64 = x;
    let mut i: usize = 0;
    proof {
        assert(le_bytes(x as nat, 8).skip(0) =~= le_bytes(x as nat, 8));
        crate::encoding::lemma_le_bytes_len(x as nat, 8);
    }
    while i < 8
        invariant
            i <= 8,
            le_bytes(x as nat, 8).len() == 8,
            forall|j: int| 0 <= j < i ==> bytes@[j] == le_bytes(x as nat, 8)[j],
            le_bytes(rest as nat, (8 - i) as nat) == le_bytes(x as nat, 8).skip(i as int),
        decreases 8 - i,
    {
        proof {
            let tail = le_bytes(rest as nat, (8 - i) as nat);
            let next = le_bytes((rest / 256) as nat, (8 - i - 1) as nat);
            assert(tail =~= seq![(rest % 256) as u8] + next);
            assert(tail[0] == (rest % 256) as u8);
            assert(le_bytes(x as nat, 8).skip(i as int)[0] == le_bytes(x as nat, 8)[i as int]);
            assert(next =~= tail.skip(1));
            assert(tail.skip(1) =~= le_bytes(x as nat, 8).skip(i + 1));
        }
        bytes[i] = (rest % 256) as u8;
        rest = rest / 256;
        i = i + 1;
    }
    proof {
        assert(bytes@ =~= le_bytes(x as nat, 8));
    }
    bytes
}

/// A short name made of ASCII characters has as many bytes as characters.
pub proof fn lemma_name_fits(name: &str)
    requires
        vstd::string::is_ascii(name),
        name@.len() <= 64,
    ensures
        name.spec_bytes().len() <= 64,
{
    vstd::utf8::is_ascii_chars_encode_utf8(name@);
}

} // verus!
