//! Unsigned integers, least significant byte first.

use super::{Codec, Decode, Encode};
use vstd::prelude::*;

verus! {

/// The `n` lowest base-256 digits of `v`, the lowest first.
pub open spec fn le_bytes(v: nat, n: nat) -> Seq<u8>
    decreases n,
{
    if n == 0 {
        Seq::empty()
    } else {
        seq![(v % 256) as u8] + le_bytes(v / 256, (n - 1) as nat)
    }
}

/// The number whose base-256 digits are `bytes`, the lowest first.
pub open spec fn le_value(bytes: Seq<u8>) -> nat
    decreases bytes.len(),
{
    if bytes.len() == 0 {
        0
    } else {
        bytes[0] as nat + 256 * le_value(bytes.drop_first())
    }
}

/// The number of values that `n` bytes can tell apart.
pub open spec fn le_limit(n: nat) -> nat
    decreases n,
{
    if n == 0 {
        1
    } else {
        256 * le_limit((n - 1) as nat)
    }
}

pub(super) proof fn lemma_le_bytes_len(v: nat, n: nat)
    ensures
        le_bytes(v, n).len() == n,
    decreases n,
{
    if n > 0 {
        lemma_le_bytes_len(v / 256, (n - 1) as nat);
    }
}

proof fn lemma_le_value_bound(bytes: Seq<u8>)
    ensures
        le_value(bytes) < le_limit(bytes.len()),
    decreases bytes.len(),
{
    if bytes.len() > 0 {
        lemma_le_value_bound(bytes.drop_first());
    }
}

pub(super) proof fn lemma_le_value_of_bytes(v: nat, n: nat)
    requires
        v < le_limit(n),
    ensures
        le_value(le_bytes(v, n)) == v,
    decreases n,
{
    lemma_le_bytes_len(v, n);
    if n > 0 {
        lemma_le_value_of_bytes(v / 256, (n - 1) as nat);
        assert(le_bytes(v, n).drop_first() =~= le_bytes(v / 256, (n - 1) as nat));
    }
}

proof fn lemma_le_bytes_of_value(bytes: Seq<u8>)
    ensures
        le_bytes(le_value(bytes), bytes.len()) == bytes,
    decreases bytes.len(),
{
    if bytes.len() > 0 {
        let tail = bytes.drop_first();
        lemma_le_bytes_of_value(tail);
        assert(le_value(bytes) % 256 == bytes[0]);
        assert(le_value(bytes) / 256 == le_value(tail));
        assert(bytes =~= seq![bytes[0]] + tail);
    } else {
        assert(bytes =~= Seq::<u8>::empty());
    }
}

pub(super) proof fn lemma_le_limits()
    ensures
        le_limit(1) == 0x100,
        le_limit(2) == 0x1_0000,
        le_limit(4) == 0x1_0000_0000,
        le_limit(8) == 0x1_0000_0000_0000_0000,
{
    reveal_with_fuel(le_limit, 9);
}

proof fn lemma_le_limit_monotonic(n: nat, m: nat)
    requires
        n <= m,
    ensures
        le_limit(n) <= le_limit(m),
    decreases m,
{
    if n < m {
        lemma_le_limit_monotonic(n, (m - 1) as nat);
    }
}

/// The integer that `bytes` begin with, if they are at least `n`.
pub open spec fn parse_le(bytes: Seq<u8>, n: nat) -> Option<nat> {
    if bytes.len() >= n {
        Some(le_value(bytes.take(n as int)))
    } else {
        None
    }
}

proof fn lemma_parse_le_of_bytes(v: nat, n: nat, rest: Seq<u8>)
    requires
        v < le_limit(n),
    ensures
        parse_le(le_bytes(v, n) + rest, n) == Some(v),
        le_bytes(v, n).len() == n,
{
    lemma_le_bytes_len(v, n);
    lemma_le_value_of_bytes(v, n);
    assert((le_bytes(v, n) + rest).take(n as int) =~= le_bytes(v, n));
}

/// Appends the `n` lowest bytes of `v`.
fn push_le(dest: &mut Vec<u8>, v: u64, n: usize)
    ensures
        final(dest)@ == old(dest)@ + le_bytes(v as nat, n as nat),
{
    let mut left: u64 = v;
    let mut i: usize = 0;
    while i < n
        invariant
            i <= n,
            dest@ + le_bytes(left as nat, (n - i) as nat) == old(dest)@ + le_bytes(
                v as nat,
                n as nat,
            ),
        decreases n - i,
    {
        let ghost before = dest@;
        let byte: u8 = (left % 256) as u8;
        dest.push(byte);
        assert(before + le_bytes(left as nat, (n - i) as nat) =~= dest@ + le_bytes(
            (left / 256) as nat,
            (n - i - 1) as nat,
        ));
        left = left / 256;
        i = i + 1;
    }
    assert(dest@ + Seq::<u8>::empty() =~= dest@);
}

/// Takes `n` bytes off the front of `input` and reads them as an integer.
fn take_le(input: &mut &[u8], n: usize) -> (value: Option<u64>)
    requires
        n <= 8,
    ensures
        match value {
            Some(v) => {
                &&& parse_le(old(input)@, n as nat) == Some(v as nat)
                &&& v < le_limit(n as nat)
                &&& final(input)@ == old(input)@.skip(n as int)
            },
            None => parse_le(old(input)@, n as nat) is None && final(input)@ == old(input)@,
        },
{
    let bytes: &[u8] = *input;
    if bytes.len() < n {
        return None;
    }
    let ghost digits = bytes@.take(n as int);
    let mut value: u64 = 0;
    let mut i: usize = n;
    assert(digits.skip(n as int) =~= Seq::<u8>::empty());
    while i > 0
        invariant
            i <= n <= 8,
            n <= bytes@.len(),
            digits == bytes@.take(n as int),
            value == le_value(digits.skip(i as int)),
        decreases i,
    {
        i = i - 1;
        proof {
            let tail = digits.skip(i as int);
            assert(tail.drop_first() =~= digits.skip(i + 1));
            lemma_le_value_bound(tail);
            lemma_le_limit_monotonic(tail.len(), 8);
            lemma_le_limits();
        }
        value = bytes[i] as u64 + 256 * value;
    }
    proof {
        assert(digits.skip(0) =~= digits);
        lemma_le_value_bound(digits);
    }
    *input = vstd::slice::slice_subrange(bytes, n, bytes.len());
    assert(input@ =~= bytes@.skip(n as int));
    Some(value)
}

impl Encode for u8 {
    open spec fn encodable(v: u8) -> bool {
        true
    }

    open spec fn encoding(v: u8) -> Seq<u8> {
        le_bytes(v as nat, 1)
    }

    fn encode_to(&self, dest: &mut Vec<u8>) {
        push_le(dest, *self as u64, 1);
    }
}

impl Decode for u8 {
    open spec fn parse(bytes: Seq<u8>) -> Option<(u8, int)> {
        match parse_le(bytes, 1) {
            Some(v) => Some((v as u8, 1)),
            None => None,
        }
    }

    proof fn lemma_parse_within(bytes: Seq<u8>) {
    }

    fn decode(input: &mut &[u8]) -> (value: Option<u8>) {
        proof {
            lemma_le_limits();
        }
        match take_le(input, 1) {
            Some(v) => Some(v as u8),
            None => None,
        }
    }
}

impl Codec for u8 {
    proof fn lemma_round_trip(v: u8, rest: Seq<u8>) {
        lemma_le_limits();
        lemma_parse_le_of_bytes(v as nat, 1, rest);
    }

    proof fn lemma_canonical(bytes: Seq<u8>) {
        if bytes.len() >= 1 {
            lemma_le_limits();
            lemma_le_value_bound(bytes.take(1));
            lemma_le_bytes_of_value(bytes.take(1));
        }
    }
}

impl Encode for u16 {
    open spec fn encodable(v: u16) -> bool {
        true
    }

    open spec fn encoding(v: u16) -> Seq<u8> {
        le_bytes(v as nat, 2)
    }

    fn encode_to(&self, dest: &mut Vec<u8>) {
        push_le(dest, *self as u64, 2);
    }
}

impl Decode for u16 {
    open spec fn parse(bytes: Seq<u8>) -> Option<(u16, int)> {
        match parse_le(bytes, 2) {
            Some(v) => Some((v as u16, 2)),
            None => None,
        }
    }

    proof fn lemma_parse_within(bytes: Seq<u8>) {
    }

    fn decode(input: &mut &[u8]) -> (value: Option<u16>) {
        proof {
            lemma_le_limits();
        }
        match take_le(input, 2) {
            Some(v) => Some(v as u16),
            None => None,
        }
    }
}

impl Codec for u16 {
    proof fn lemma_round_trip(v: u16, rest: Seq<u8>) {
        lemma_le_limits();
        lemma_parse_le_of_bytes(v as nat, 2, rest);
    }

    proof fn lemma_canonical(bytes: Seq<u8>) {
        if bytes.len() >= 2 {
            lemma_le_limits();
            lemma_le_value_bound(bytes.take(2));
            lemma_le_bytes_of_value(bytes.take(2));
        }
    }
}

impl Encode for u32 {
    open spec fn encodable(v: u32) -> bool {
        true
    }

    open spec fn encoding(v: u32) -> Seq<u8> {
        le_bytes(v as nat, 4)
    }

    fn encode_to(&self, dest: &mut Vec<u8>) {
        push_le(dest, *self as u64, 4);
    }
}

impl Decode for u32 {
    open spec fn parse(bytes: Seq<u8>) -> Option<(u32, int)> {
        match parse_le(bytes, 4) {
            Some(v) => Some((v as u32, 4)),
            None => None,
        }
    }

    proof fn lemma_parse_within(bytes: Seq<u8>) {
    }

    fn decode(input: &mut &[u8]) -> (value: Option<u32>) {
        proof {
            lemma_le_limits();
        }
        match take_le(input, 4) {
            Some(v) => Some(v as u32),
            None => None,
        }
    }
}

impl Codec for u32 {
    proof fn lemma_round_trip(v: u32, rest: Seq<u8>) {
        lemma_le_limits();
        lemma_parse_le_of_bytes(v as nat, 4, rest);
    }

    proof fn lemma_canonical(bytes: Seq<u8>) {
        if bytes.len() >= 4 {
            lemma_le_limits();
            lemma_le_value_bound(bytes.take(4));
            lemma_le_bytes_of_value(bytes.take(4));
        }
    }
}

impl Encode for u64 {
    open spec fn encodable(v: u64) -> bool {
        true
    }

    open spec fn encoding(v: u64) -> Seq<u8> {
        le_bytes(v as nat, 8)
    }

    fn encode_to(&self, dest: &mut Vec<u8>) {
        push_le(dest, *self, 8);
    }
}

impl Decode for u64 {
    open spec fn parse(bytes: Seq<u8>) -> Option<(u64, int)> {
        match parse_le(bytes, 8) {
            Some(v) => Some((v as u64, 8)),
            None => None,
        }
    }

    proof fn lemma_parse_within(bytes: Seq<u8>) {
    }

    fn decode(input: &mut &[u8]) -> (value: Option<u64>) {
        proof {
            lemma_le_limits();
        }
        match take_le(input, 8) {
            Some(v) => Some(v),
            None => None,
        }
    }
}

impl Codec for u64 {
    proof fn lemma_round_trip(v: u64, rest: Seq<u8>) {
        lemma_le_limits();
        lemma_parse_le_of_bytes(v as nat, 8, rest);
    }

    proof fn lemma_canonical(bytes: Seq<u8>) {
        if bytes.len() >= 8 {
            lemma_le_limits();
            lemma_le_value_bound(bytes.take(8));
            lemma_le_bytes_of_value(bytes.take(8));
        }
    }
}

} // verus!
