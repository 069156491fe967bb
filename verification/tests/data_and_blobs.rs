use bytes::Bytes;

use frida_hotstuff::blob_helper::{merge_blobs, unmerge_blobs, Error, YodaBlobData};
use frida_hotstuff::data::{try_create_fri_data, DataError, FriData, FridaTransaction};
use frida_hotstuff::frida;
use frida_hotstuff::benchmark_utils::generate_test_data;
use frida_hotstuff::data::create_fri_data;

#[test]
fn test_reconstruct_data_list() {
    let yoda_blob_data_1 = YodaBlobData::from_raw(Bytes::from_static(b"1234567890")).unwrap();
    let yoda_blob_data_2 = YodaBlobData::from_raw(Bytes::from_static(b"hello")).unwrap();
    let yoda_blob_data_3 = YodaBlobData::from_raw(Bytes::from_static(b"world")).unwrap();

    let merged_blob = merge_blobs(&[yoda_blob_data_1, yoda_blob_data_2, yoda_blob_data_3]);
    let mut fri_data = FriData::new(100, 100);
    fri_data.arrange_blobs(&merged_blob);
    let flattened_data: Vec<u8> = fri_data.clone().into();

    let mut back_to_fri_data = FriData::new(100, 100);
    back_to_fri_data.reconstruct_data_list(&flattened_data);
    assert_eq!(fri_data, back_to_fri_data);
}

#[test]
fn merged_blobs_carry_big_endian_length_prefixes() {
    let a = YodaBlobData::from_raw(Bytes::from_static(b"ab")).unwrap();
    let b = YodaBlobData::from_raw(Bytes::from_static(b"")).unwrap();
    let c = YodaBlobData::from_raw(Bytes::from_static(b"xyz")).unwrap();
    let merged = merge_blobs(&[a, b, c]);
    let expected: Vec<u8> = [
        &[0u8, 0, 0, 0, 0, 0, 0, 2][..],
        b"ab",
        &[0u8, 0, 0, 0, 0, 0, 0, 0][..],
        &[0u8, 0, 0, 0, 0, 0, 0, 3][..],
        b"xyz",
    ]
    .concat();
    assert_eq!(merged.to_vec(), expected);
}

#[test]
fn unmerge_gives_back_the_merged_blobs() {
    let blobs = vec![
        YodaBlobData::from_raw(Bytes::from_static(b"1234567890")).unwrap(),
        YodaBlobData::from_raw(Bytes::from_static(b"")).unwrap(),
        YodaBlobData::from_raw(Bytes::from_static(b"world")).unwrap(),
    ];
    let merged = merge_blobs(&blobs);
    let back = unmerge_blobs(&merged).unwrap();
    assert_eq!(back.len(), 3);
    assert_eq!(back[0].0, Bytes::from_static(b"1234567890"));
    assert_eq!(back[1].0, Bytes::from_static(b""));
    assert_eq!(back[2].0, Bytes::from_static(b"world"));
}

#[test]
fn unmerge_of_nothing_is_no_blob() {
    let back = unmerge_blobs(&Bytes::new()).unwrap();
    assert!(back.is_empty());
}

#[test]
fn unmerge_refuses_a_short_prefix() {
    let merged = Bytes::from_static(&[0, 0, 0]);
    assert!(matches!(unmerge_blobs(&merged), Err(Error::Error)));
}

#[test]
fn unmerge_refuses_a_length_beyond_the_end() {
    let merged = Bytes::from_static(&[0, 0, 0, 0, 0, 0, 0, 5, b'a', b'b']);
    assert!(matches!(unmerge_blobs(&merged), Err(Error::Error)));
}

#[test]
fn arrange_deals_bytes_round_robin() {
    let mut fri_data = FriData::new(3, 4);
    assert_eq!(fri_data.max_blob_size, 12);
    fri_data.arrange_blobs(&Bytes::from_static(b"abcdefg"));
    assert_eq!(
        fri_data.data_list,
        vec![b"adg".to_vec(), b"be".to_vec(), b"cf".to_vec()]
    );
    assert_eq!(fri_data.flatten(), b"adgbecf".to_vec());
}

#[test]
fn flatten_then_reconstruct_gives_back_the_rows() {
    // Law: with every row holding its full share, dealing the flattened rows again
    // gives back the rows (here one row).
    let mut fri_data = FriData::new(1, 16);
    fri_data.arrange_blobs(&Bytes::from_static(b"hello world"));
    let flat: Vec<u8> = fri_data.clone().into();
    let mut back = FriData::new(1, 16);
    back.reconstruct_data_list(&flat);
    assert_eq!(back, fri_data);
}

#[test]
fn transaction_from_matrix_carries_the_flattened_rows() {
    let mut fri_data = FriData::new(2, 4);
    fri_data.arrange_blobs(&Bytes::from_static(b"abcd"));
    let tx: FridaTransaction = fri_data.into();
    assert_eq!(tx.data, Bytes::from_static(b"acbd"));
    let tx2 = FridaTransaction::new(Bytes::from_static(b"z"));
    assert_eq!(tx2.data, Bytes::from_static(b"z"));
}

#[test]
fn fixed_matrix_has_one_hundred_rows() {
    let data = frida::arrange_blobs(&Bytes::from_static(b"xy"));
    assert_eq!(data.data_list.len(), 100);
    assert_eq!(data.data_list[0], b"x".to_vec());
    assert_eq!(data.data_list[1], b"y".to_vec());
    assert!(data.data_list[2].is_empty());
    assert_eq!(frida::MAX_BLOB_SIZE, 10000);
}

#[test]
fn block_matrix_from_transactions() {
    let txs = vec![
        FridaTransaction::new(Bytes::from_static(b"hi")),
        FridaTransaction::new(Bytes::from_static(b"x")),
    ];
    let fri_data = create_fri_data(&txs, 4, 8);
    assert_eq!(fri_data.height, 4);
    assert_eq!(fri_data.width, 8);
    assert_eq!(fri_data.max_blob_size, 32);
    let merged: Vec<u8> = [&[0u8, 0, 0, 0, 0, 0, 0, 2][..], b"hi", &[0u8, 0, 0, 0, 0, 0, 0, 1][..], b"x"].concat();
    let mut expected = FriData::new(4, 8);
    expected.reconstruct_data_list(&merged);
    assert_eq!(fri_data, expected);
    assert_eq!(fri_data.data_list[0], vec![0, 0, b'h', 0, 0]);
}

#[test]
fn random_test_data_fills_the_matrix() {
    let fri_data = generate_test_data(4, 5).unwrap();
    assert_eq!(fri_data.height, 4);
    assert_eq!(fri_data.width, 5);
    assert_eq!(fri_data.max_blob_size, 20);
    assert_eq!(fri_data.data_list.len(), 4);
    assert!(fri_data.data_list.iter().all(|row| row.len() == 5));
}

#[test]
fn random_test_data_is_not_left_zeroed() {
    let fri_data = generate_test_data(8, 8).unwrap();
    assert!(fri_data.data_list.iter().flatten().any(|&b| b != 0));
}

#[test]
fn checked_layout_refuses_a_blob_that_does_not_fit() {
    let mut fri_data = FriData::new(2, 2);
    assert_eq!(fri_data.try_arrange_blobs(&Bytes::from_static(b"abcde")), Err(DataError::BlobTooLarge));
    assert!(fri_data.data_list.is_empty());
    assert_eq!(fri_data.try_arrange_blobs(&Bytes::from_static(b"abcd")), Ok(()));
    assert_eq!(fri_data.data_list, vec![b"ac".to_vec(), b"bd".to_vec()]);
    let mut huge = FriData { data_list: vec![], height: usize::MAX, width: 2, max_blob_size: usize::MAX };
    assert_eq!(huge.try_arrange_blobs(&Bytes::from_static(b"a")), Err(DataError::BlobTooLarge));
}

#[test]
fn checked_block_matrix_refuses_data_that_does_not_fit() {
    let txs = vec![FridaTransaction::new(Bytes::from_static(b"hello"))];
    // 8 prefix bytes and 5 data bytes: 13 bytes.
    assert!(matches!(try_create_fri_data(&txs, 3, 4), Err(DataError::BlobTooLarge)));
    let fri_data = try_create_fri_data(&txs, 13, 1).unwrap();
    assert_eq!(fri_data.data_list.len(), 13);
    assert_eq!(fri_data.data_list[7], vec![5]);
    assert_eq!(fri_data.data_list[8], vec![b'h']);
    assert!(matches!(try_create_fri_data(&txs, usize::MAX, 2), Err(DataError::BlobTooLarge)));
}

#[test]
fn checked_fixed_matrix_refuses_more_than_its_capacity() {
    let big = vec![0u8; frida::MAX_BLOB_SIZE + 1];
    assert!(matches!(frida::try_arrange_blobs(&Bytes::from(big)), Err(DataError::BlobTooLarge)));
    let data = frida::try_arrange_blobs(&Bytes::from_static(b"z")).unwrap();
    assert_eq!(data.data_list[0], b"z".to_vec());
}
