//! Lists: the number of items in four bytes, then the items in order.

use super::{Codec, Decode, Encode};
use vstd::prelude::*;

verus! {

/// The encodings of the items, one after another.
pub open spec fn encode_items<T: Encode>(items: Seq<T::V>) -> Seq<u8>
    decreases items.len(),
{
    if items.len() == 0 {
        Seq::empty()
    } else {
        encode_items::<T>(items.drop_last()) + T::encoding(items.last())
    }
}

/// The `count` items that `bytes` begin with, and how many bytes they take up together.
pub open spec fn parse_items<T: Decode>(bytes: Seq<u8>, count: nat) -> Option<(Seq<T::V>, int)>
    decreases count,
{
    if count == 0 {
        Some((Seq::empty(), 0))
    } else {
        match T::parse(bytes) {
            Some((first, n)) => match parse_items::<T>(bytes.skip(n), (count - 1) as nat) {
                Some((others, m)) => Some((seq![first] + others, n + m)),
                None => None,
            },
            None => None,
        }
    }
}

proof fn lemma_encode_items_front<T: Encode>(items: Seq<T::V>)
    requires
        items.len() > 0,
    ensures
        encode_items::<T>(items) == T::encoding(items.first()) + encode_items::<T>(
            items.drop_first(),
        ),
    decreases items.len(),
{
    if items.len() == 1 {
        assert(items.drop_last() =~= Seq::<T::V>::empty());
        assert(items.drop_first() =~= Seq::<T::V>::empty());
        assert(Seq::<u8>::empty() + T::encoding(items.last()) =~= T::encoding(items.first())
            + Seq::<u8>::empty());
    } else {
        lemma_encode_items_front::<T>(items.drop_last());
        assert(items.drop_last().drop_first() =~= items.drop_first().drop_last());
        assert(encode_items::<T>(items) =~= T::encoding(items.first()) + encode_items::<T>(
            items.drop_first(),
        ));
    }
}

proof fn lemma_parse_items_within<T: Decode>(bytes: Seq<u8>, count: nat)
    ensures
        parse_items::<T>(bytes, count) matches Some((items, n)) ==> {
            &&& 0 <= n <= bytes.len()
            &&& items.len() == count
        },
    decreases count,
{
    if count > 0 {
        T::lemma_parse_within(bytes);
        if let Some((_, n)) = T::parse(bytes) {
            lemma_parse_items_within::<T>(bytes.skip(n), (count - 1) as nat);
        }
    }
}

proof fn lemma_items_round_trip<T: Codec>(items: Seq<<T as DeepView>::V>, rest: Seq<u8>)
    requires
        forall|i: int| 0 <= i < items.len() ==> T::encodable(#[trigger] items[i]),
    ensures
        parse_items::<T>(encode_items::<T>(items) + rest, items.len()) == Some(
            (items, encode_items::<T>(items).len() as int),
        ),
    decreases items.len(),
{
    if items.len() == 0 {
        assert(items =~= Seq::empty());
    } else {
        let first = items.first();
        let others = items.drop_first();
        let after = encode_items::<T>(others) + rest;
        let n = T::encoding(first).len() as int;
        lemma_encode_items_front::<T>(items);
        assert(encode_items::<T>(items) + rest =~= T::encoding(first) + after);
        T::lemma_round_trip(first, after);
        assert((T::encoding(first) + after).skip(n) =~= after);
        assert forall|i: int| 0 <= i < others.len() implies T::encodable(#[trigger] others[i]) by {
            assert(others[i] == items[i + 1]);
        }
        lemma_items_round_trip::<T>(others, rest);
        assert(seq![first] + others =~= items);
    }
}

proof fn lemma_items_canonical<T: Codec>(bytes: Seq<u8>, count: nat)
    ensures
        parse_items::<T>(bytes, count) matches Some((items, n)) ==> {
            &&& forall|i: int| 0 <= i < items.len() ==> T::encodable(#[trigger] items[i])
            &&& 0 <= n <= bytes.len()
            &&& bytes.take(n) == encode_items::<T>(items)
        },
    decreases count,
{
    lemma_parse_items_within::<T>(bytes, count);
    if count == 0 {
        assert(bytes.take(0) =~= Seq::<u8>::empty());
    } else if let Some((items, total)) = parse_items::<T>(bytes, count) {
        T::lemma_canonical(bytes);
        if let Some((first, n)) = T::parse(bytes) {
            lemma_items_canonical::<T>(bytes.skip(n), (count - 1) as nat);
            if let Some((others, m)) = parse_items::<T>(bytes.skip(n), (count - 1) as nat) {
                assert(items == seq![first] + others);
                assert(items.drop_first() =~= others);
                lemma_encode_items_front::<T>(items);
                assert(bytes.take(total) =~= bytes.take(n) + bytes.skip(n).take(m));
                assert forall|i: int| 0 <= i < items.len() implies T::encodable(
                    #[trigger] items[i],
                ) by {
                    if i > 0 {
                        assert(items[i] == others[i - 1]);
                    }
                }
            }
        }
    }
}

impl<T: Encode> Encode for Vec<T> {
    open spec fn encodable(v: Seq<T::V>) -> bool {
        &&& v.len() <= u32::MAX
        &&& forall|i: int| 0 <= i < v.len() ==> T::encodable(#[trigger] v[i])
    }

    open spec fn encoding(v: Seq<T::V>) -> Seq<u8> {
        u32::encoding(v.len() as u32) + encode_items::<T>(v)
    }

    fn encode_to(&self, dest: &mut Vec<u8>) {
        let ghost items = self.deep_view();
        let count: u32 = self.len() as u32;
        count.encode_to(dest);
        let mut i: usize = 0;
        assert(items.take(0) =~= Seq::<T::V>::empty());
        while i < self.len()
            invariant
                i <= self@.len(),
                items == self.deep_view(),
                Self::encodable(items),
                dest@ == old(dest)@ + u32::encoding(items.len() as u32) + encode_items::<T>(
                    items.take(i as int),
                ),
            decreases self@.len() - i,
        {
            assert(T::encodable(items[i as int]));
            self[i].encode_to(dest);
            assert(items.take(i + 1).drop_last() =~= items.take(i as int));
            i = i + 1;
        }
        assert(items.take(i as int) =~= items);
    }
}

impl<T: Decode> Decode for Vec<T> {
    open spec fn parse(bytes: Seq<u8>) -> Option<(Seq<T::V>, int)> {
        match u32::parse(bytes) {
            Some((count, n)) => match parse_items::<T>(bytes.skip(n), count as nat) {
                Some((items, m)) => Some((items, n + m)),
                None => None,
            },
            None => None,
        }
    }

    proof fn lemma_parse_within(bytes: Seq<u8>) {
        u32::lemma_parse_within(bytes);
        if let Some((count, n)) = u32::parse(bytes) {
            lemma_parse_items_within::<T>(bytes.skip(n), count as nat);
        }
    }

    fn decode(input: &mut &[u8]) -> (value: Option<Vec<T>>) {
        let whole: &[u8] = *input;
        let count: u32 = match u32::decode(input) {
            Some(count) => count,
            None => {
                return None;
            },
        };
        let ghost body = input@;
        let ghost mut used: int = 0;
        let mut items: Vec<T> = Vec::new();
        let mut left: u32 = count;
        assert(items.deep_view() =~= Seq::<T::V>::empty());
        assert(body.skip(0) =~= body);
        proof {
            if let Some((all, n)) = parse_items::<T>(body, count as nat) {
                assert(items.deep_view() + all =~= all);
            }
        }
        while left > 0
            invariant
                whole@ == old(input)@,
                u32::parse(whole@) matches Some((c, n)) && c == count && body == whole@.skip(n),
                0 <= used <= body.len(),
                input@ == body.skip(used),
                parse_items::<T>(body, count as nat) == (match parse_items::<T>(
                    input@,
                    left as nat,
                ) {
                    Some((others, m)) => Some((items.deep_view() + others, used + m)),
                    None => None,
                }),
            decreases left,
        {
            let ghost before = input@;
            let ghost done = items.deep_view();
            proof {
                T::lemma_parse_within(before);
            }
            match T::decode(input) {
                Some(item) => {
                    items.push(item);
                    left = left - 1;
                    proof {
                        let n = T::parse(before)->Some_0.1;
                        assert(before.skip(n) =~= body.skip(used + n));
                        used = used + n;
                        assert(items.deep_view() =~= done.push(item.deep_view()));
                        if let Some((others, m)) = parse_items::<T>(input@, left as nat) {
                            assert(done + (seq![item.deep_view()] + others) =~= items.deep_view()
                                + others);
                        }
                    }
                },
                None => {
                    *input = whole;
                    return None;
                },
            }
        }
        proof {
            assert(items.deep_view() + Seq::<T::V>::empty() =~= items.deep_view());
            u32::lemma_parse_within(whole@);
            let n = u32::parse(whole@)->Some_0.1;
            assert(whole@.skip(n).skip(used) =~= whole@.skip(n + used));
        }
        Some(items)
    }
}

impl<T: Codec> Codec for Vec<T> {
    proof fn lemma_round_trip(v: Seq<<T as DeepView>::V>, rest: Seq<u8>) {
        let count = v.len() as u32;
        let after = encode_items::<T>(v) + rest;
        let n = u32::encoding(count).len() as int;
        u32::lemma_round_trip(count, after);
        assert(Self::encoding(v) + rest =~= u32::encoding(count) + after);
        assert((u32::encoding(count) + after).skip(n) =~= after);
        lemma_items_round_trip::<T>(v, rest);
    }

    proof fn lemma_canonical(bytes: Seq<u8>) {
        u32::lemma_canonical(bytes);
        if let Some((count, n)) = u32::parse(bytes) {
            lemma_parse_items_within::<T>(bytes.skip(n), count as nat);
            lemma_items_canonical::<T>(bytes.skip(n), count as nat);
            if let Some((items, m)) = parse_items::<T>(bytes.skip(n), count as nat) {
                assert(bytes.take(n + m) =~= bytes.take(n) + bytes.skip(n).take(m));
            }
        }
    }
}

} // verus!
