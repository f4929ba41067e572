//! The byte format in which values are kept in storage.
//!
//! Integers are written with their least significant byte first, a list is written as its length
//! in four bytes followed by its items, and a record is written as its fields one after another.

use vstd::prelude::*;

pub mod format;
pub mod integer;
pub mod list;
pub mod record;

pub use record::Struct;

verus! {

/// A value with a byte encoding.
///
/// The encoding is a function of the value's mathematical content, its deep view.
pub trait Encode: DeepView + Sized {
    /// The values that the format has room for. Only lists can fall outside: their length is
    /// written in four bytes.
    spec fn encodable(v: Self::V) -> bool;

    /// The bytes that stand for `v`.
    spec fn encoding(v: Self::V) -> Seq<u8>;

    /// Appends the encoding to `dest`.
    fn encode_to(&self, dest: &mut Vec<u8>)
        requires
            Self::encodable(self.deep_view()),
        ensures
            final(dest)@ == old(dest)@ + Self::encoding(self.deep_view()),
    ;

    /// The encoding as bytes of its own.
    fn encode(&self) -> (bytes: Vec<u8>)
        requires
            Self::encodable(self.deep_view()),
        ensures
            bytes@ == Self::encoding(self.deep_view()),
    {
        let mut dest: Vec<u8> = Vec::new();
        self.encode_to(&mut dest);
        dest
    }

    /// Hands the encoding to `f` and returns what `f` returns.
    fn using_encoded<R, F: FnOnce(&[u8]) -> R>(&self, f: F) -> (result: R)
        requires
            Self::encodable(self.deep_view()),
            forall|bytes: &[u8]| #[trigger]
                bytes@ == Self::encoding(self.deep_view()) ==> call_requires(f, (bytes,)),
        ensures
            exists|bytes: &[u8]| #[trigger]
                bytes@ == Self::encoding(self.deep_view()) && call_ensures(f, (bytes,), result),
    {
        let bytes = self.encode();
        f(bytes.as_slice())
    }
}

/// A value that can be read back from its byte encoding.
pub trait Decode: DeepView + Sized {
    /// The value that `bytes` begin with, and how many bytes it takes up; `None` where `bytes` do
    /// not begin with a value.
    spec fn parse(bytes: Seq<u8>) -> Option<(Self::V, int)>;

    /// A value takes up no more bytes than there are.
    proof fn lemma_parse_within(bytes: Seq<u8>)
        ensures
            Self::parse(bytes) matches Some((_, n)) ==> 0 <= n <= bytes.len(),
    ;

    /// Reads a value off the front of `input`. Where there is none, `input` stays as it was.
    fn decode(input: &mut &[u8]) -> (value: Option<Self>)
        ensures
            match value {
                Some(v) => {
                    &&& Self::parse(old(input)@) matches Some((w, n))
                    &&& w == v.deep_view()
                    &&& final(input)@ == old(input)@.skip(n)
                },
                None => {
                    &&& Self::parse(old(input)@) is None
                    &&& final(input)@ == old(input)@
                },
            },
    ;
}

/// A value whose encoding and decoding undo each other.
pub trait Codec: Encode + Decode {
    /// Whatever follows an encoding, the value is read back from it, and nothing beyond it is
    /// used up.
    proof fn lemma_round_trip(v: <Self as DeepView>::V, rest: Seq<u8>)
        requires
            Self::encodable(v),
        ensures
            Self::parse(Self::encoding(v) + rest) == Some((v, Self::encoding(v).len() as int)),
    ;

    /// The bytes that a value is read from are its encoding.
    proof fn lemma_canonical(bytes: Seq<u8>)
        ensures
            Self::parse(bytes) matches Some((v, n)) ==> {
                &&& Self::encodable(v)
                &&& 0 <= n <= bytes.len()
                &&& bytes.take(n) == Self::encoding(v)
            },
    ;
}

/// Decoding the encoding of a value, whatever follows it, gives back the value and stops where
/// the encoding ends.
pub proof fn law_decode_undoes_encode<C: Codec>(v: <C as DeepView>::V, rest: Seq<u8>)
    requires
        C::encodable(v),
    ensures
        C::parse(C::encoding(v) + rest) == Some((v, C::encoding(v).len() as int)),
        C::parse(C::encoding(v)) == Some((v, C::encoding(v).len() as int)),
{
    C::lemma_round_trip(v, rest);
    C::lemma_round_trip(v, Seq::<u8>::empty());
    assert(C::encoding(v) + Seq::<u8>::empty() =~= C::encoding(v));
}

/// Encoding what was decoded gives back the bytes that were read: every value has one encoding.
pub proof fn law_encode_undoes_decode<C: Codec>(bytes: Seq<u8>, v: <C as DeepView>::V, n: int)
    requires
        C::parse(bytes) == Some((v, n)),
    ensures
        C::encodable(v),
        0 <= n <= bytes.len(),
        C::encoding(v) == bytes.take(n),
{
    C::lemma_canonical(bytes);
}

/// Different values have different encodings, and neither is the beginning of the other.
pub proof fn law_encodings_are_prefix_free<C: Codec>(
    v: <C as DeepView>::V,
    w: <C as DeepView>::V,
    rest: Seq<u8>,
)
    requires
        C::encodable(v),
        C::encodable(w),
        C::encoding(v) == C::encoding(w) + rest,
    ensures
        v == w,
        rest.len() == 0,
{
    C::lemma_round_trip(v, Seq::<u8>::empty());
    C::lemma_round_trip(w, rest);
    assert(C::encoding(v) + Seq::<u8>::empty() =~= C::encoding(w) + rest);
}

} // verus!
