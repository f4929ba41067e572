use session::codec::{Decode, Encode, Struct};

type TestType = Struct<u32, u64, Vec<u8>>;

#[test]
fn should_derive_encode() {
    let v = TestType::new(15, 9, b"Hello world".to_vec());

    v.using_encoded(|ref slice| {
        assert_eq!(slice, &b"\x0f\0\0\0\x09\0\0\0\0\0\0\0\x0b\0\0\0Hello world")
    });
}

#[test]
fn should_derive_decode() {
    let slice = b"\x0f\0\0\0\x09\0\0\0\0\0\0\0\x0b\0\0\0Hello world".to_vec();

    let v = TestType::decode(&mut &*slice);

    assert_eq!(v, Some(TestType::new(15, 9, b"Hello world".to_vec())));
}

#[test]
fn integers_are_written_lowest_byte_first() {
    assert_eq!(0xabu8.encode(), vec![0xab]);
    assert_eq!(0x0102u16.encode(), vec![2, 1]);
    assert_eq!(0x01020304u32.encode(), vec![4, 3, 2, 1]);
    assert_eq!(0x0102030405060708u64.encode(), vec![8, 7, 6, 5, 4, 3, 2, 1]);
    assert_eq!(u64::MAX.encode(), vec![255; 8]);
}

#[test]
fn integers_are_read_back() {
    assert_eq!(u8::decode(&mut &[7u8][..]), Some(7));
    assert_eq!(u16::decode(&mut &[2u8, 1][..]), Some(0x0102));
    assert_eq!(u32::decode(&mut &[4u8, 3, 2, 1][..]), Some(0x01020304));
    assert_eq!(u64::decode(&mut &[255u8; 8][..]), Some(u64::MAX));
}

#[test]
fn decoding_stops_where_the_value_ends() {
    let bytes: Vec<u8> = vec![1, 0, 0, 0, 9, 9];
    let mut input: &[u8] = &bytes;
    assert_eq!(u32::decode(&mut input), Some(1));
    assert_eq!(input, &[9u8, 9][..]);
    assert_eq!(u32::decode(&mut input), None);
    assert_eq!(input, &[9u8, 9][..]);
}

#[test]
fn lists_carry_their_length_in_front() {
    let list: Vec<u64> = vec![1, 2];
    assert_eq!(list.encode(), vec![2, 0, 0, 0, 1, 0, 0, 0, 0, 0, 0, 0, 2, 0, 0, 0, 0, 0, 0, 0]);
    let empty: Vec<u64> = vec![];
    assert_eq!(empty.encode(), vec![0, 0, 0, 0]);
    let nested: Vec<Vec<u8>> = vec![vec![5], vec![]];
    assert_eq!(nested.encode(), vec![2, 0, 0, 0, 1, 0, 0, 0, 5, 0, 0, 0, 0]);
    assert_eq!(Vec::<Vec<u8>>::decode(&mut &nested.encode()[..]), Some(nested));
}

#[test]
fn a_list_cut_short_is_no_list() {
    let bytes: Vec<u8> = vec![2, 0, 0, 0, 1, 0, 0, 0, 0, 0, 0, 0, 2];
    let mut input: &[u8] = &bytes;
    assert_eq!(Vec::<u64>::decode(&mut input), None);
    assert_eq!(input, &bytes[..]);
    assert_eq!(Vec::<u64>::decode(&mut &[1u8, 0, 0][..]), None);
}

#[test]
fn a_record_cut_short_is_no_record() {
    let whole = TestType::new(15, 9, b"Hello world".to_vec()).encode();
    for end in 0..whole.len() {
        let mut input: &[u8] = &whole[..end];
        assert_eq!(TestType::decode(&mut input), None);
        assert_eq!(input, &whole[..end]);
    }
}

#[test]
fn encode_to_appends() {
    let mut dest: Vec<u8> = vec![7];
    Struct::new(1u8, 2u16, 3u8).encode_to(&mut dest);
    assert_eq!(dest, vec![7, 1, 2, 0, 3]);
}

#[test]
fn using_encoded_returns_what_the_closure_returns() {
    let len: usize = vec![1u32, 2].using_encoded(|bytes| bytes.len());
    assert_eq!(len, 12);
}

#[test]
fn encoding_what_was_decoded_gives_the_bytes_back() {
    let bytes: Vec<u8> = vec![3, 0, 0, 0, 1, 2, 3, 4, 5];
    let mut input: &[u8] = &bytes;
    let list = Vec::<u8>::decode(&mut input).unwrap();
    let read = bytes.len() - input.len();
    assert_eq!(list.encode(), bytes[..read].to_vec());
    assert_eq!(read, 7);
}

#[test]
fn no_encoding_begins_with_another() {
    let lists: Vec<Vec<u8>> = vec![vec![], vec![0], vec![0, 0], vec![1], vec![2, 0]];
    for (i, v) in lists.iter().enumerate() {
        for (j, w) in lists.iter().enumerate() {
            assert_eq!(v.encode().starts_with(&w.encode()), i == j);
        }
    }
}
