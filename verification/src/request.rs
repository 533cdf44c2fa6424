//! The request builder: one function per operation that pairs the
//! operation's fixed, ordered resource-reference list and access flags with
//! the encoded command bytes, after validating the payload where one exists.
//! The order and flags of each list are part of the wire contract with the
//! executor and are pinned, position by position, in each builder's contract.
use vstd::prelude::*;

use crate::codec::encode;
use crate::codec::spec_encode;
use crate::codec::lemma_valid_args_encodable;
use crate::instruction::AccountType;
use crate::instruction::CollectionError;
use crate::instruction::CollectionInstruction;
use crate::instruction::CommandView;
use crate::instruction::CreateCollectionAccountArgs;
use crate::instruction::spec_valid;

verus! {

/// A fixed-width identifier for an external account or resource. This layer
/// never derives or inspects addresses; it only places identifiers, already
/// computed by a collaborator, at their protocol positions.
#[derive(Clone, Copy, PartialEq, Eq, Debug)]
pub struct ResourceId {
    pub bytes: [u8; 32],
}

/// An address slot of a reference list: an identifier supplied by the
/// caller, or one of the two well-known references (the rent information
/// account and the system program) whose concrete addresses the submission
/// collaborator provides.
#[derive(Clone, Copy, PartialEq, Eq, Debug)]
pub enum ReferenceAddress {
    Provided(ResourceId),
    RentSysvar,
    SystemProgram,
}

/// One resource reference: an address slot with its access flags.
#[derive(Clone, Copy, PartialEq, Eq, Debug)]
pub struct ResourceRef {
    pub address: ReferenceAddress,
    pub writable: bool,
    pub signer: bool,
}

/// A fully built request, ready for a transaction-submission collaborator:
/// the program target, the ordered reference list, and the command bytes.
#[derive(Clone, PartialEq, Debug)]
pub struct Request {
    pub program_id: ResourceId,
    pub references: Vec<ResourceRef>,
    pub data: Vec<u8>,
}

/// The reference with the given address slot and flags.
pub open spec fn spec_ref(address: ReferenceAddress, writable: bool, signer: bool) -> ResourceRef {
    ResourceRef { address, writable, signer }
}

/// Builds the create-collection request. The payload is validated first:
/// on an invalid payload the builder fails with `InvalidArgs` and produces
/// no bytes.
pub fn create_collection_account(
    program_id: ResourceId,
    collection_account: ResourceId,
    from_account: ResourceId,
    args: CreateCollectionAccountArgs,
) -> (r: Result<Request, CollectionError>)
    ensures
        r matches Ok(req) ==> {
            &&& spec_valid(args@)
            &&& req.program_id == program_id
            &&& req.references@ == seq![
                spec_ref(ReferenceAddress::Provided(collection_account), true, true),
                spec_ref(ReferenceAddress::Provided(from_account), false, true),
                spec_ref(ReferenceAddress::RentSysvar, false, false),
                spec_ref(ReferenceAddress::SystemProgram, false, false),
            ]
            &&& req.data@ == spec_encode(CommandView::CreateCollectionAccount(args@))
        },
        r is Err ==> !spec_valid(args@) && r == Err::<Request, CollectionError>(
            CollectionError::InvalidArgs,
        ),
        spec_valid(args@) ==> r is Ok,
{
    if !args.is_valid() {
        return Err(CollectionError::InvalidArgs);
    }
    proof {
        lemma_valid_args_encodable(args@);
    }
    let cmd = CollectionInstruction::CreateCollectionAccount(args);
    let data = encode(&cmd);
    let mut references: Vec<ResourceRef> = Vec::new();
    references.push(ResourceRef {
        address: ReferenceAddress::Provided(collection_account),
        writable: true,
        signer: true,
    });
    references.push(ResourceRef {
        address: ReferenceAddress::Provided(from_account),
        writable: false,
        signer: true,
    });
    references.push(ResourceRef {
        address: ReferenceAddress::RentSysvar,
        writable: false,
        signer: false,
    });
    references.push(ResourceRef {
        address: ReferenceAddress::SystemProgram,
        writable: false,
        signer: false,
    });
    assert(references@ =~= seq![
        spec_ref(ReferenceAddress::Provided(collection_account), true, true),
        spec_ref(ReferenceAddress::Provided(from_account), false, true),
        spec_ref(ReferenceAddress::RentSysvar, false, false),
        spec_ref(ReferenceAddress::SystemProgram, false, false),
    ]);
    Ok(Request { program_id, references, data })
}

/// Builds the include-token request.
pub fn include_token(
    program_id: ResourceId,
    collection_account: ResourceId,
    mint_account: ResourceId,
    payer_account: ResourceId,
    index_account: ResourceId,
) -> (r: Request)
    ensures
        r.program_id == program_id,
        r.references@ == seq![
            spec_ref(ReferenceAddress::Provided(collection_account), true, true),
            spec_ref(ReferenceAddress::Provided(mint_account), false, false),
            spec_ref(ReferenceAddress::Provided(payer_account), false, true),
            spec_ref(ReferenceAddress::Provided(index_account), true, false),
            spec_ref(ReferenceAddress::RentSysvar, false, false),
            spec_ref(ReferenceAddress::SystemProgram, false, false),
        ],
        r.data@ == spec_encode(CommandView::IncludeToken),
{
    let data = encode(&CollectionInstruction::IncludeToken);
    let mut references: Vec<ResourceRef> = Vec::new();
    references.push(ResourceRef {
        address: ReferenceAddress::Provided(collection_account),
        writable: true,
        signer: true,
    });
    references.push(ResourceRef {
        address: ReferenceAddress::Provided(mint_account),
        writable: false,
        signer: false,
    });
    references.push(ResourceRef {
        address: ReferenceAddress::Provided(payer_account),
        writable: false,
        signer: true,
    });
    references.push(ResourceRef {
        address: ReferenceAddress::Provided(index_account),
        writable: true,
        signer: false,
    });
    references.push(ResourceRef {
        address: ReferenceAddress::RentSysvar,
        writable: false,
        signer: false,
    });
    references.push(ResourceRef {
        address: ReferenceAddress::SystemProgram,
        writable: false,
        signer: false,
    });
    assert(references@ =~= seq![
        spec_ref(ReferenceAddress::Provided(collection_account), true, true),
        spec_ref(ReferenceAddress::Provided(mint_account), false, false),
        spec_ref(ReferenceAddress::Provided(payer_account), false, true),
        spec_ref(ReferenceAddress::Provided(index_account), true, false),
        spec_ref(ReferenceAddress::RentSysvar, false, false),
        spec_ref(ReferenceAddress::SystemProgram, false, false),
    ]);
    Request { program_id, references, data }
}

/// Builds the request that raises the popularity counter by one.
pub fn light_up_stars_once(program_id: ResourceId, collection_account: ResourceId) -> (r: Request)
    ensures
        r.program_id == program_id,
        r.references@ == seq![
            spec_ref(ReferenceAddress::Provided(collection_account), true, true),
        ],
        r.data@ == spec_encode(CommandView::LightUpStarsOnce),
{
    let data = encode(&CollectionInstruction::LightUpStarsOnce);
    let mut references: Vec<ResourceRef> = Vec::new();
    references.push(ResourceRef {
        address: ReferenceAddress::Provided(collection_account),
        writable: true,
        signer: true,
    });
    assert(references@ =~= seq![
        spec_ref(ReferenceAddress::Provided(collection_account), true, true),
    ]);
    Request { program_id, references, data }
}

/// Builds the request that raises the popularity counter by one hundred,
/// paying a fee from the source into the destination.
pub fn light_up_stars_hundred(
    program_id: ResourceId,
    collection_account: ResourceId,
    source_account: ResourceId,
    destination_account: ResourceId,
) -> (r: Request)
    ensures
        r.program_id == program_id,
        r.references@ == seq![
            spec_ref(ReferenceAddress::Provided(collection_account), true, false),
            spec_ref(ReferenceAddress::Provided(source_account), false, true),
            spec_ref(ReferenceAddress::Provided(destination_account), true, false),
            spec_ref(ReferenceAddress::SystemProgram, false, false),
        ],
        r.data@ == spec_encode(CommandView::LightUpStarsHundred),
{
    let data = encode(&CollectionInstruction::LightUpStarsHundred);
    let mut references: Vec<ResourceRef> = Vec::new();
    references.push(ResourceRef {
        address: ReferenceAddress::Provided(collection_account),
        writable: true,
        signer: false,
    });
    references.push(ResourceRef {
        address: ReferenceAddress::Provided(source_account),
        writable: false,
        signer: true,
    });
    references.push(ResourceRef {
        address: ReferenceAddress::Provided(destination_account),
        writable: true,
        signer: false,
    });
    references.push(ResourceRef {
        address: ReferenceAddress::SystemProgram,
        writable: false,
        signer: false,
    });
    assert(references@ =~= seq![
        spec_ref(ReferenceAddress::Provided(collection_account), true, false),
        spec_ref(ReferenceAddress::Provided(source_account), false, true),
        spec_ref(ReferenceAddress::Provided(destination_account), true, false),
        spec_ref(ReferenceAddress::SystemProgram, false, false),
    ]);
    Request { program_id, references, data }
}

/// Builds the close-account request for the record kind the ordinal names.
pub fn close_account(
    program_id: ResourceId,
    state_account: ResourceId,
    recipient_account: ResourceId,
    authority_account: ResourceId,
    account_type: AccountType,
) -> (r: Request)
    ensures
        r.program_id == program_id,
        r.references@ == seq![
            spec_ref(ReferenceAddress::Provided(state_account), true, false),
            spec_ref(ReferenceAddress::Provided(recipient_account), true, false),
            spec_ref(ReferenceAddress::Provided(authority_account), false, true),
        ],
        r.data@ == spec_encode(CommandView::CloseAccount(account_type)),
{
    let data = encode(&CollectionInstruction::CloseAccount(account_type));
    let mut references: Vec<ResourceRef> = Vec::new();
    references.push(ResourceRef {
        address: ReferenceAddress::Provided(state_account),
        writable: true,
        signer: false,
    });
    references.push(ResourceRef {
        address: ReferenceAddress::Provided(recipient_account),
        writable: true,
        signer: false,
    });
    references.push(ResourceRef {
        address: ReferenceAddress::Provided(authority_account),
        writable: false,
        signer: true,
    });
    assert(references@ =~= seq![
        spec_ref(ReferenceAddress::Provided(state_account), true, false),
        spec_ref(ReferenceAddress::Provided(recipient_account), true, false),
        spec_ref(ReferenceAddress::Provided(authority_account), false, true),
    ]);
    Request { program_id, references, data }
}

/// Builds the treasury-withdrawal request.
pub fn withdraw(
    program_id: ResourceId,
    treasury_account: ResourceId,
    recipient_account: ResourceId,
) -> (r: Request)
    ensures
        r.program_id == program_id,
        r.references@ == seq![
            spec_ref(ReferenceAddress::Provided(treasury_account), true, false),
            spec_ref(ReferenceAddress::Provided(recipient_account), true, false),
        ],
        r.data@ == spec_encode(CommandView::Withdraw),
{
    let data = encode(&CollectionInstruction::Withdraw);
    let mut references: Vec<ResourceRef> = Vec::new();
    references.push(ResourceRef {
        address: ReferenceAddress::Provided(treasury_account),
        writable: true,
        signer: false,
    });
    references.push(ResourceRef {
        address: ReferenceAddress::Provided(recipient_account),
        writable: true,
        signer: false,
    });
    assert(references@ =~= seq![
        spec_ref(ReferenceAddress::Provided(treasury_account), true, false),
        spec_ref(ReferenceAddress::Provided(recipient_account), true, false),
    ]);
    Request { program_id, references, data }
}

} // verus!
