//! What the byte format looks like, byte by byte.

use super::integer::{
    le_bytes, le_value, lemma_le_bytes_len, lemma_le_limits, lemma_le_value_of_bytes,
};
use super::list::encode_items;
use super::{Codec, Decode, Encode, Struct};
use vstd::prelude::*;

verus! {

/// A number of one byte is that byte.
pub proof fn law_u8_format(v: u8)
    ensures
        u8::encodable(v),
        u8::encoding(v) == seq![v],
{
    reveal_with_fuel(le_bytes, 2);
    assert(u8::encoding(v) =~= seq![v]);
}

/// A number of two bytes is two bytes, the lower first.
pub proof fn law_u16_format(v: u16)
    ensures
        u16::encodable(v),
        u16::encoding(v).len() == 2,
        v == u16::encoding(v)[0] + 0x100 * u16::encoding(v)[1],
{
    lemma_le_limits();
    lemma_le_bytes_len(v as nat, 2);
    lemma_le_value_of_bytes(v as nat, 2);
    lemma_two_digits(u16::encoding(v));
}

/// A number of four bytes is four bytes, the lowest first.
pub proof fn law_u32_format(v: u32)
    ensures
        u32::encodable(v),
        u32::encoding(v).len() == 4,
        ({
            let b = u32::encoding(v);
            v == b[0] + 0x100 * b[1] + 0x1_0000 * b[2] + 0x100_0000 * b[3]
        }),
{
    lemma_le_limits();
    lemma_le_bytes_len(v as nat, 4);
    lemma_le_value_of_bytes(v as nat, 4);
    lemma_four_digits(u32::encoding(v));
}

/// A number of eight bytes is eight bytes, the lowest first.
pub proof fn law_u64_format(v: u64)
    ensures
        u64::encodable(v),
        u64::encoding(v).len() == 8,
        ({
            let b = u64::encoding(v);
            v == b[0] + 0x100 * b[1] + 0x1_0000 * b[2] + 0x100_0000 * b[3] + 0x1_0000_0000 * b[4]
                + 0x100_0000_0000 * b[5] + 0x1_0000_0000_0000 * b[6] + 0x100_0000_0000_0000 * b[7]
        }),
{
    lemma_le_limits();
    lemma_le_bytes_len(v as nat, 8);
    lemma_le_value_of_bytes(v as nat, 8);
    lemma_eight_digits(u64::encoding(v));
}

/// A number is read off any bytes that are enough, and off no others.
pub proof fn law_numbers_need_their_bytes(bytes: Seq<u8>)
    ensures
        u8::parse(bytes) is Some <==> bytes.len() >= 1,
        u16::parse(bytes) is Some <==> bytes.len() >= 2,
        u32::parse(bytes) is Some <==> bytes.len() >= 4,
        u64::parse(bytes) is Some <==> bytes.len() >= 8,
        u8::parse(bytes) matches Some((_, n)) ==> n == 1,
        u16::parse(bytes) matches Some((_, n)) ==> n == 2,
        u32::parse(bytes) matches Some((_, n)) ==> n == 4,
        u64::parse(bytes) matches Some((_, n)) ==> n == 8,
{
}

/// Any list can be written whose length fits in four bytes and whose items can be written. In
/// front stands the length, and the items follow: one item more adds its bytes at the end.
pub proof fn law_list_format<T: Encode>(items: Seq<T::V>, item: T::V)
    ensures
        Vec::<T>::encodable(items) <==> items.len() <= 0xffff_ffff && forall|i: int|
            0 <= i < items.len() ==> T::encodable(#[trigger] items[i]),
        items.len() <= 0xffff_ffff ==> {
            let b = Vec::<T>::encoding(items);
            &&& b.len() >= 4
            &&& items.len() == b[0] + 0x100 * b[1] + 0x1_0000 * b[2] + 0x100_0000 * b[3]
            &&& items.len() == 0 ==> b.len() == 4
        },
        Vec::<T>::encoding(items.push(item)).skip(4) == Vec::<T>::encoding(items).skip(4)
            + T::encoding(item),
{
    let n = items.len() as u32;
    law_u32_format(n);
    law_u32_format(items.push(item).len() as u32);
    assert(items.push(item).drop_last() =~= items);
    assert(Vec::<T>::encoding(items).skip(4) =~= encode_items::<T>(items));
    assert(Vec::<T>::encoding(items.push(item)).skip(4) =~= encode_items::<T>(items.push(item)));
}

/// A record can be written if its fields can, and is written as its fields in their order.
pub proof fn law_record_format<A: Encode, B: Encode, C: Encode>(record: Struct<A, B, C>)
    ensures
        Struct::<A, B, C>::encodable(record.deep_view()) <==> A::encodable(record.a.deep_view())
            && B::encodable(record.b.deep_view()) && C::encodable(record.c.deep_view()),
        Struct::<A, B, C>::encoding(record.deep_view()) == A::encoding(record.a.deep_view())
            + B::encoding(record.b.deep_view()) + C::encoding(record.c.deep_view()),
{
}

/// A record made of three values has those as its fields.
pub proof fn law_record_holds_its_fields<A, B, C>(a: A, b: B, c: C, record: Struct<A, B, C>)
    requires
        call_ensures(Struct::<A, B, C>::new, (a, b, c), record),
    ensures
        record.a == a,
        record.b == b,
        record.c == c,
{
}

/// Bytes off which no value can be read do not begin with the encoding of any value.
pub proof fn law_decode_misses_no_value<C: Codec>(v: <C as DeepView>::V, rest: Seq<u8>)
    requires
        C::parse(C::encoding(v) + rest) is None,
    ensures
        !C::encodable(v),
{
    if C::encodable(v) {
        C::lemma_round_trip(v, rest);
    }
}

/// Writing a value and reading what was written gives back the value and leaves nothing over;
/// with more bytes behind, it leaves just those.
pub proof fn law_write_then_read<C: Codec>(
    value: &C,
    bytes: Vec<u8>,
    rest: Seq<u8>,
    input: &mut &[u8],
    read: Option<C>,
)
    requires
        C::encodable(value.deep_view()),
        call_ensures(C::encode, (value,), bytes),
        old(input)@ == bytes@ + rest,
        call_ensures(C::decode, (input,), read),
    ensures
        read is Some,
        read->Some_0.deep_view() == value.deep_view(),
        final(input)@ == rest,
{
    C::lemma_round_trip(value.deep_view(), rest);
    assert((bytes@ + rest).skip(bytes@.len() as int) =~= rest);
}

/// Whatever is read, the bytes that it took are its encoding, and where nothing is read the input
/// stays as it was.
pub proof fn law_read_takes_an_encoding<C: Codec>(input: &mut &[u8], read: Option<C>)
    requires
        call_ensures(C::decode, (input,), read),
    ensures
        read matches Some(v) ==> old(input)@ == C::encoding(v.deep_view()) + final(input)@,
        read is None ==> final(input)@ == old(input)@,
{
    C::lemma_canonical(old(input)@);
    C::lemma_parse_within(old(input)@);
    if let Some(v) = read {
        let (_, n) = C::parse(old(input)@)->Some_0;
        assert(old(input)@ =~= old(input)@.take(n) + old(input)@.skip(n));
    }
}

/// Appending an encoding leaves in place what was there, and adds what `encode` returns.
pub proof fn law_append_adds_the_encoding<C: Encode>(
    value: &C,
    bytes: Vec<u8>,
    dest: &mut Vec<u8>,
)
    requires
        call_ensures(C::encode, (value,), bytes),
        call_ensures(C::encode_to, (value, dest), ()),
    ensures
        final(dest)@ == old(dest)@ + bytes@,
{
}

/// Every value that the format has room for can be written, and reading can be tried on any bytes.
pub proof fn law_reading_and_writing_can_be_tried<C: Codec>(
    value: &C,
    dest: &mut Vec<u8>,
    input: &mut &[u8],
)
    requires
        C::encodable(value.deep_view()),
    ensures
        call_requires(C::encode, (value,)),
        call_requires(C::encode_to, (value, dest)),
        call_requires(C::decode, (input,)),
{
}

proof fn lemma_two_digits(b: Seq<u8>)
    requires
        b.len() == 2,
    ensures
        le_value(b) == b[0] + 0x100 * b[1],
{
    reveal_with_fuel(le_value, 3);
}

proof fn lemma_four_digits(b: Seq<u8>)
    requires
        b.len() == 4,
    ensures
        le_value(b) == b[0] + 0x100 * b[1] + 0x1_0000 * b[2] + 0x100_0000 * b[3],
{
    let tail = b.drop_first().drop_first();
    lemma_two_digits(tail);
    reveal_with_fuel(le_value, 3);
}

proof fn lemma_eight_digits(b: Seq<u8>)
    requires
        b.len() == 8,
    ensures
        le_value(b) == b[0] + 0x100 * b[1] + 0x1_0000 * b[2] + 0x100_0000 * b[3] + 0x1_0000_0000
            * b[4] + 0x100_0000_0000 * b[5] + 0x1_0000_0000_0000 * b[6] + 0x100_0000_0000_0000
            * b[7],
{
    let tail = b.drop_first().drop_first().drop_first().drop_first();
    lemma_four_digits(tail);
    reveal_with_fuel(le_value, 5);
}

} // verus!
