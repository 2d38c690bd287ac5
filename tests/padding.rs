use pine::{Pkcs7, StoreError};

#[test]
fn unpad_empty_block() {
    let arr: &[u8] = &[];
    let res = Pkcs7::unpad(arr);
    assert!(res.is_err());
}

#[test]
fn unpad_block_with_length_greater_than_255() {
    let arr = [2u8; 500];
    let res = Pkcs7::unpad(&arr[..]);
    assert!(res.is_ok_and(|unpadded_arr| unpadded_arr == arr));
}

#[test]
fn unpad_block_with_last_byte_0() {
    let arr = (0..100).rev().collect::<Vec<u8>>();
    let res = Pkcs7::unpad(arr.as_slice());
    assert!(res.is_ok_and(|unpadded_arr| unpadded_arr == arr));
}

#[test]
fn unpad_block_with_last_byte_greater_than_length_of_array() {
    let arr = [50u8, 51, 52];
    let res = Pkcs7::unpad(&arr[..]);
    assert!(res.is_ok_and(|unpadded_arr| unpadded_arr == &arr[..]));
}

#[test]
fn unpad_block_with_bytes_ne_to_unpad_length() {
    let arr = [9, 8, 7, 6, 5, 4, 3, 10, 10, 10, 10, 10, 10, 3, 10, 10, 10];
    let res = Pkcs7::unpad(&arr[..]);
    assert!(res.is_ok_and(|unpadded_arr| unpadded_arr == &arr[..]));
}

#[test]
fn unpad_empty_block_is_unpad_error() {
    let arr: &[u8] = &[];
    assert!(matches!(Pkcs7::unpad(arr), Err(StoreError::UnpadError)));
}

#[test]
fn pad_appends_count_bytes() {
    let padded = Pkcs7::pad(&[1, 2, 3], 16).ok().unwrap();
    let mut expected = vec![1u8, 2, 3];
    expected.extend(std::iter::repeat(13u8).take(13));
    assert_eq!(padded, expected);
}

#[test]
fn pad_full_block_appends_nothing() {
    let block = [7u8; 16];
    let padded = Pkcs7::pad(&block, 16).ok().unwrap();
    assert_eq!(padded, block.to_vec());
}

#[test]
fn pad_empty_block_fills_block() {
    let padded = Pkcs7::pad(&[], 16).ok().unwrap();
    assert_eq!(padded, vec![16u8; 16]);
}

#[test]
fn pad_rejects_block_longer_than_length() {
    assert!(matches!(Pkcs7::pad(&[0u8; 17], 16), Err(StoreError::PadError)));
}

#[test]
fn pad_rejects_block_longer_than_255() {
    assert!(matches!(Pkcs7::pad(&[0u8; 256], 300), Err(StoreError::PadError)));
}

#[test]
fn unpad_strips_valid_padding() {
    let mut block = b"hello".to_vec();
    block.extend(std::iter::repeat(11u8).take(11));
    let res = Pkcs7::unpad(&block).ok().unwrap();
    assert_eq!(res, b"hello");
}

#[test]
fn pad_then_unpad_gives_block_back() {
    for len in 1..=16usize {
        let block: Vec<u8> = (0..len as u8).map(|b| b + 100).collect();
        let padded = Pkcs7::pad(&block, 16).ok().unwrap();
        assert_eq!(padded.len(), 16);
        let res = Pkcs7::unpad(&padded).ok().unwrap();
        assert_eq!(res, block.as_slice());
    }
}

#[test]
fn unpad_keeps_block_ending_in_zero() {
    let mut block = [3u8; 16];
    block[15] = 0;
    let res = Pkcs7::unpad(&block).ok().unwrap();
    assert_eq!(res, &block[..]);
}

#[test]
fn unpad_keeps_block_with_mismatched_padding() {
    let mut block = [5u8; 16];
    block[12] = 4;
    let res = Pkcs7::unpad(&block).ok().unwrap();
    assert_eq!(res, &block[..]);
}
