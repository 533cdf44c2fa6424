use collection_protocol::codec::decode;
use collection_protocol::instruction::AccountType;
use collection_protocol::instruction::CollectionError;
use collection_protocol::instruction::CollectionInstruction;
use collection_protocol::instruction::CreateCollectionAccountArgs;
use collection_protocol::request::ReferenceAddress;
use collection_protocol::request::ResourceId;
use collection_protocol::request::ResourceRef;
use collection_protocol::request::close_account;
use collection_protocol::request::create_collection_account;
use collection_protocol::request::include_token;
use collection_protocol::request::light_up_stars_hundred;
use collection_protocol::request::light_up_stars_once;
use collection_protocol::request::withdraw;

fn rid(x: u8) -> ResourceId {
    ResourceId { bytes: [x; 32] }
}

fn provided(x: u8, writable: bool, signer: bool) -> ResourceRef {
    ResourceRef { address: ReferenceAddress::Provided(rid(x)), writable, signer }
}

fn well_known(address: ReferenceAddress) -> ResourceRef {
    ResourceRef { address, writable: false, signer: false }
}

fn scenario_args() -> CreateCollectionAccountArgs {
    CreateCollectionAccountArgs {
        title: b"Cats".to_vec(),
        symbol: b"CAT".to_vec(),
        description: Vec::new(),
        icon_image: b"http://x".to_vec(),
        header_image: None,
        short_description: None,
        banner: None,
        tags: None,
    }
}

#[test]
fn create_collection_scenario() {
    let req = create_collection_account(rid(9), rid(1), rid(2), scenario_args()).unwrap();
    assert_eq!(req.program_id, rid(9));
    assert_eq!(
        req.references,
        vec![
            provided(1, true, true),
            provided(2, false, true),
            well_known(ReferenceAddress::RentSysvar),
            well_known(ReferenceAddress::SystemProgram),
        ]
    );
    let decoded = decode(&req.data).unwrap();
    assert_eq!(decoded, CollectionInstruction::CreateCollectionAccount(scenario_args()));
}

#[test]
fn create_collection_rejects_long_title() {
    let mut args = scenario_args();
    args.title = vec![b'a'; 40];
    let r = create_collection_account(rid(9), rid(1), rid(2), args);
    assert_eq!(r, Err(CollectionError::InvalidArgs));
}

#[test]
fn withdraw_scenario() {
    let req = withdraw(rid(9), rid(3), rid(4));
    assert_eq!(req.program_id, rid(9));
    assert_eq!(req.references, vec![provided(3, true, false), provided(4, true, false)]);
    assert_eq!(req.data, vec![6u8]);
}

#[test]
fn include_token_references() {
    let req = include_token(rid(9), rid(1), rid(2), rid(3), rid(4));
    assert_eq!(
        req.references,
        vec![
            provided(1, true, true),
            provided(2, false, false),
            provided(3, false, true),
            provided(4, true, false),
            well_known(ReferenceAddress::RentSysvar),
            well_known(ReferenceAddress::SystemProgram),
        ]
    );
    assert_eq!(req.data, vec![1u8]);
}

#[test]
fn light_up_stars_once_references() {
    let req = light_up_stars_once(rid(9), rid(1));
    assert_eq!(req.references, vec![provided(1, true, true)]);
    assert_eq!(req.data, vec![2u8]);
}

#[test]
fn light_up_stars_hundred_references() {
    let req = light_up_stars_hundred(rid(9), rid(1), rid(2), rid(3));
    assert_eq!(
        req.references,
        vec![
            provided(1, true, false),
            provided(2, false, true),
            provided(3, true, false),
            well_known(ReferenceAddress::SystemProgram),
        ]
    );
    assert_eq!(req.data, vec![3u8]);
}

#[test]
fn close_account_references_and_data() {
    let req = close_account(rid(9), rid(1), rid(2), rid(3), AccountType { ordinal: 7 });
    assert_eq!(
        req.references,
        vec![provided(1, true, false), provided(2, true, false), provided(3, false, true)]
    );
    assert_eq!(req.data, vec![5u8, 7u8]);
}

#[test]
fn title_length_boundary() {
    let mut args = scenario_args();
    args.title = vec![b'a'; 32];
    assert!(args.is_valid());
    args.title = vec![b'a'; 33];
    assert!(!args.is_valid());
}

#[test]
fn symbol_length_boundary() {
    let mut args = scenario_args();
    args.symbol = vec![b'a'; 10];
    assert!(args.is_valid());
    args.symbol = vec![b'a'; 11];
    assert!(!args.is_valid());
}

#[test]
fn description_length_boundary() {
    let mut args = scenario_args();
    args.description = vec![b'a'; 800];
    assert!(args.is_valid());
    args.description = vec![b'a'; 801];
    assert!(!args.is_valid());
}

#[test]
fn icon_image_length_boundary() {
    let mut args = scenario_args();
    args.icon_image = vec![b'a'; 200];
    assert!(args.is_valid());
    args.icon_image = vec![b'a'; 201];
    assert!(!args.is_valid());
}

#[test]
fn header_image_length_boundary() {
    let mut args = scenario_args();
    args.header_image = Some(vec![b'a'; 200]);
    assert!(args.is_valid());
    args.header_image = Some(vec![b'a'; 201]);
    assert!(!args.is_valid());
}

#[test]
fn short_description_length_boundary() {
    let mut args = scenario_args();
    args.short_description = Some(vec![b'a'; 800]);
    assert!(args.is_valid());
    args.short_description = Some(vec![b'a'; 801]);
    assert!(!args.is_valid());
}

#[test]
fn banner_length_boundary() {
    let mut args = scenario_args();
    args.banner = Some(vec![b'a'; 200]);
    assert!(args.is_valid());
    args.banner = Some(vec![b'a'; 201]);
    assert!(!args.is_valid());
}

#[test]
fn tags_boundaries() {
    let mut args = scenario_args();
    args.tags = Some(vec![vec![b't'; 19]; 6]);
    assert!(args.is_valid());
    assert!(args.check_tags());
    args.tags = Some(vec![vec![b't'; 19]; 7]);
    assert!(!args.is_valid());
    assert!(!args.check_tags());
    args.tags = Some(vec![vec![b't'; 20]]);
    assert!(!args.is_valid());
    assert!(!args.check_tags());
    args.tags = Some(Vec::new());
    assert!(args.check_tags());
    args.tags = None;
    assert!(args.check_tags());
}
