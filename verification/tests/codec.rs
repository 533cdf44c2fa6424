use collection_protocol::codec::decode;
use collection_protocol::codec::encode;
use collection_protocol::instruction::AccountType;
use collection_protocol::instruction::CollectionError;
use collection_protocol::instruction::CollectionInstruction;
use collection_protocol::instruction::CreateCollectionAccountArgs;

fn base_args() -> CreateCollectionAccountArgs {
    CreateCollectionAccountArgs {
        title: b"Cats".to_vec(),
        symbol: b"CAT".to_vec(),
        description: Vec::new(),
        icon_image: b"http://x".to_vec(),
        header_image: None,
        short_description: None,
        banner: None,
        tags: None,
    }
}

fn full_args() -> CreateCollectionAccountArgs {
    CreateCollectionAccountArgs {
        title: b"Dogs".to_vec(),
        symbol: b"DOG".to_vec(),
        description: b"all the good dogs".to_vec(),
        icon_image: b"http://icons/dog".to_vec(),
        header_image: Some(b"http://headers/dog".to_vec()),
        short_description: Some(b"good dogs".to_vec()),
        banner: Some(b"http://banners/dog".to_vec()),
        tags: Some(vec![b"pets".to_vec(), b"animals".to_vec(), Vec::new()]),
    }
}

#[test]
fn round_trip_create_minimal() {
    let cmd = CollectionInstruction::CreateCollectionAccount(base_args());
    assert_eq!(decode(&encode(&cmd)), Ok(cmd));
}

#[test]
fn round_trip_create_full() {
    let cmd = CollectionInstruction::CreateCollectionAccount(full_args());
    assert_eq!(decode(&encode(&cmd)), Ok(cmd));
}

#[test]
fn round_trip_include_token() {
    let cmd = CollectionInstruction::IncludeToken;
    assert_eq!(decode(&encode(&cmd)), Ok(cmd));
}

#[test]
fn round_trip_light_up_stars_once() {
    let cmd = CollectionInstruction::LightUpStarsOnce;
    assert_eq!(decode(&encode(&cmd)), Ok(cmd));
}

#[test]
fn round_trip_light_up_stars_hundred() {
    let cmd = CollectionInstruction::LightUpStarsHundred;
    assert_eq!(decode(&encode(&cmd)), Ok(cmd));
}

#[test]
fn round_trip_light_up_stars_thousand() {
    let cmd = CollectionInstruction::LightUpStarsThousand;
    assert_eq!(decode(&encode(&cmd)), Ok(cmd));
}

#[test]
fn round_trip_close_account() {
    let cmd = CollectionInstruction::CloseAccount(AccountType { ordinal: 1 });
    assert_eq!(decode(&encode(&cmd)), Ok(cmd));
}

#[test]
fn round_trip_withdraw() {
    let cmd = CollectionInstruction::Withdraw;
    assert_eq!(decode(&encode(&cmd)), Ok(cmd));
}

#[test]
fn encode_withdraw_is_single_tag_byte() {
    assert_eq!(encode(&CollectionInstruction::Withdraw), vec![6u8]);
}

#[test]
fn encode_simple_variant_tag_bytes() {
    assert_eq!(encode(&CollectionInstruction::IncludeToken), vec![1u8]);
    assert_eq!(encode(&CollectionInstruction::LightUpStarsOnce), vec![2u8]);
    assert_eq!(encode(&CollectionInstruction::LightUpStarsHundred), vec![3u8]);
    assert_eq!(encode(&CollectionInstruction::LightUpStarsThousand), vec![4u8]);
}

#[test]
fn encode_close_account_tag_then_ordinal() {
    let cmd = CollectionInstruction::CloseAccount(AccountType { ordinal: 3 });
    assert_eq!(encode(&cmd), vec![5u8, 3u8]);
}

#[test]
fn encode_create_exact_bytes() {
    let cmd = CollectionInstruction::CreateCollectionAccount(base_args());
    let expected: Vec<u8> = vec![
        0, // tag
        4, 0, 0, 0, b'C', b'a', b't', b's', // title
        3, 0, 0, 0, b'C', b'A', b'T', // symbol
        0, 0, 0, 0, // empty description
        8, 0, 0, 0, b'h', b't', b't', b'p', b':', b'/', b'/', b'x', // icon
        0, // no header image
        0, // no short description
        0, // no banner
        0, // no tags
    ];
    assert_eq!(encode(&cmd), expected);
}

#[test]
fn encode_tags_with_count_prefix() {
    let mut args = base_args();
    args.tags = Some(vec![b"ab".to_vec(), b"c".to_vec()]);
    let cmd = CollectionInstruction::CreateCollectionAccount(args);
    let bytes = encode(&cmd);
    let expected_tail: Vec<u8> = vec![
        1, // tags present
        2, 0, 0, 0, // two entries
        2, 0, 0, 0, b'a', b'b', // first tag
        1, 0, 0, 0, b'c', // second tag
    ];
    assert_eq!(bytes[bytes.len() - expected_tail.len()..], expected_tail[..]);
    assert_eq!(decode(&bytes), Ok(cmd));
}

#[test]
fn decode_rejects_empty_buffer() {
    assert_eq!(decode(&Vec::new()), Err(CollectionError::MalformedInstruction));
}

#[test]
fn decode_rejects_tag_out_of_range() {
    assert_eq!(decode(&vec![7u8]), Err(CollectionError::MalformedInstruction));
    assert_eq!(decode(&vec![255u8]), Err(CollectionError::MalformedInstruction));
}

#[test]
fn decode_rejects_trailing_byte_after_close_account() {
    // a valid close-account encoding followed by one extra byte
    let mut bytes = encode(&CollectionInstruction::CloseAccount(AccountType { ordinal: 2 }));
    bytes.push(0);
    assert_eq!(decode(&bytes), Err(CollectionError::MalformedInstruction));
}

#[test]
fn decode_rejects_trailing_byte_after_withdraw() {
    assert_eq!(decode(&vec![6u8, 0u8]), Err(CollectionError::MalformedInstruction));
}

#[test]
fn decode_rejects_trailing_byte_after_create() {
    let mut bytes = encode(&CollectionInstruction::CreateCollectionAccount(base_args()));
    bytes.push(1);
    assert_eq!(decode(&bytes), Err(CollectionError::MalformedInstruction));
}

#[test]
fn decode_rejects_truncated_create() {
    let mut bytes = encode(&CollectionInstruction::CreateCollectionAccount(full_args()));
    bytes.pop();
    assert_eq!(decode(&bytes), Err(CollectionError::MalformedInstruction));
}

#[test]
fn decode_rejects_truncated_close_account() {
    assert_eq!(decode(&vec![5u8]), Err(CollectionError::MalformedInstruction));
}

#[test]
fn decode_rejects_length_prefix_past_end() {
    // create tag, then a title length of 10 with only 2 bytes behind it
    let bytes: Vec<u8> = vec![0, 10, 0, 0, 0, b'a', b'b'];
    assert_eq!(decode(&bytes), Err(CollectionError::MalformedInstruction));
}

#[test]
fn decode_rejects_presence_flag_out_of_range() {
    // base_args encoding with the no-header flag replaced by 2
    let mut bytes = encode(&CollectionInstruction::CreateCollectionAccount(base_args()));
    let flag_at = bytes.len() - 4;
    assert_eq!(bytes[flag_at], 0);
    bytes[flag_at] = 2;
    assert_eq!(decode(&bytes), Err(CollectionError::MalformedInstruction));
}
