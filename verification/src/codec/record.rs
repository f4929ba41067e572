//! Records: the fields one after another, in the order in which they are declared.

use super::{Codec, Decode, Encode};
use vstd::prelude::*;

verus! {

/// A record of three fields.
#[derive(Debug, PartialEq)]
pub struct Struct<A, B, C> {
    pub a: A,
    pub b: B,
    pub c: C,
}

impl<A, B, C> Struct<A, B, C> {
    pub fn new(a: A, b: B, c: C) -> (record: Self)
        ensures
            record == (Struct { a, b, c }),
    {
        Struct { a, b, c }
    }
}

impl<A: DeepView, B: DeepView, C: DeepView> DeepView for Struct<A, B, C> {
    type V = (A::V, B::V, C::V);

    open spec fn deep_view(&self) -> (A::V, B::V, C::V) {
        (self.a.deep_view(), self.b.deep_view(), self.c.deep_view())
    }
}

impl<A: Encode, B: Encode, C: Encode> Encode for Struct<A, B, C> {
    open spec fn encodable(v: (A::V, B::V, C::V)) -> bool {
        let (a, b, c) = v;
        A::encodable(a) && B::encodable(b) && C::encodable(c)
    }

    open spec fn encoding(v: (A::V, B::V, C::V)) -> Seq<u8> {
        let (a, b, c) = v;
        A::encoding(a) + B::encoding(b) + C::encoding(c)
    }

    fn encode_to(&self, dest: &mut Vec<u8>) {
        self.a.encode_to(dest);
        self.b.encode_to(dest);
        self.c.encode_to(dest);
    }
}

impl<A: Decode, B: Decode, C: Decode> Decode for Struct<A, B, C> {
    open spec fn parse(bytes: Seq<u8>) -> Option<((A::V, B::V, C::V), int)> {
        match A::parse(bytes) {
            Some((a, n)) => match B::parse(bytes.skip(n)) {
                Some((b, m)) => match C::parse(bytes.skip(n + m)) {
                    Some((c, k)) => Some(((a, b, c), n + m + k)),
                    None => None,
                },
                None => None,
            },
            None => None,
        }
    }

    proof fn lemma_parse_within(bytes: Seq<u8>) {
        A::lemma_parse_within(bytes);
        if let Some((_, n)) = A::parse(bytes) {
            B::lemma_parse_within(bytes.skip(n));
            if let Some((_, m)) = B::parse(bytes.skip(n)) {
                C::lemma_parse_within(bytes.skip(n + m));
            }
        }
    }

    fn decode(input: &mut &[u8]) -> (value: Option<Self>) {
        let whole: &[u8] = *input;
        proof {
            A::lemma_parse_within(whole@);
        }
        let a = match A::decode(input) {
            Some(a) => a,
            None => {
                return None;
            },
        };
        proof {
            B::lemma_parse_within(input@);
        }
        let ghost second = input@;
        let b = match B::decode(input) {
            Some(b) => b,
            None => {
                *input = whole;
                return None;
            },
        };
        proof {
            let (_, n) = A::parse(whole@)->Some_0;
            let (_, m) = B::parse(second)->Some_0;
            assert(input@ =~= whole@.skip(n + m));
            C::lemma_parse_within(input@);
        }
        let ghost third = input@;
        let c = match C::decode(input) {
            Some(c) => c,
            None => {
                *input = whole;
                return None;
            },
        };
        proof {
            let (_, n) = A::parse(whole@)->Some_0;
            let (_, m) = B::parse(second)->Some_0;
            let (_, k) = C::parse(third)->Some_0;
            assert(input@ =~= whole@.skip(n + m + k));
        }
        Some(Struct { a, b, c })
    }
}

impl<A: Codec, B: Codec, C: Codec> Codec for Struct<A, B, C> {
    proof fn lemma_round_trip(
        v: (<A as DeepView>::V, <B as DeepView>::V, <C as DeepView>::V),
        rest: Seq<u8>,
    ) {
        let (a, b, c) = v;
        let bytes = Self::encoding(v) + rest;
        let after_b = C::encoding(c) + rest;
        let after_a = B::encoding(b) + after_b;
        let n = A::encoding(a).len() as int;
        let m = B::encoding(b).len() as int;
        assert(bytes =~= A::encoding(a) + after_a);
        assert(bytes.skip(n) =~= after_a);
        assert(bytes.skip(n + m) =~= after_b);
        A::lemma_round_trip(a, after_a);
        B::lemma_round_trip(b, after_b);
        C::lemma_round_trip(c, rest);
    }

    proof fn lemma_canonical(bytes: Seq<u8>) {
        A::lemma_canonical(bytes);
        if let Some((_, n)) = A::parse(bytes) {
            B::lemma_canonical(bytes.skip(n));
            if let Some((_, m)) = B::parse(bytes.skip(n)) {
                C::lemma_canonical(bytes.skip(n + m));
                if let Some((_, k)) = C::parse(bytes.skip(n + m)) {
                    assert(bytes.take(n + m + k) =~= bytes.take(n) + bytes.skip(n).take(m)
                        + bytes.skip(n + m).take(k));
                }
            }
        }
    }
}

} // verus!
