//! The command union of the collection protocol: payload types, the
//! validation rules on free-form payload fields, and the abstract views
//! that the codec and builder contracts are stated over.
use vstd::prelude::*;

verus! {

/// Longest allowed title, in bytes.
pub const MAX_TITLE_LENGTH: usize = 32;

/// Longest allowed symbol, in bytes.
pub const MAX_SYMBOL_LENGTH: usize = 10;

/// Longest allowed URI-like field (icon, header, banner), in bytes.
pub const MAX_URI_LENGTH: usize = 200;

/// Longest allowed description, in bytes.
pub const MAX_DESCRIPTION_LENGTH: usize = 800;

/// Longest allowed short description, in bytes.
pub const MAX_SHORT_DESCRIPTION_LENGTH: usize = 800;

/// Every tag must be strictly shorter than this, in bytes.
pub const MAX_TAG_LENGTH: usize = 20;

/// Largest allowed number of tags.
pub const MAX_TAGS_ARRAY_LENGTH: usize = 6;

/// The record kind a `CloseAccount` command targets. The set of kinds is
/// owned by the executor; this layer only threads the one-byte ordinal
/// through, so every ordinal is accepted here.
#[derive(Clone, Copy, PartialEq, Eq, Structural, Debug)]
pub struct AccountType {
    pub ordinal: u8,
}

/// The two failure kinds of this layer, both deterministic and local.
#[derive(Clone, Copy, PartialEq, Eq, Structural, Debug)]
pub enum CollectionError {
    /// A builder was handed a payload that breaks a validation invariant.
    InvalidArgs,
    /// A byte stream is not the encoding of any command.
    MalformedInstruction,
}

/// Payload of the create-collection operation. Text fields are carried as
/// their UTF-8 bytes; the wire format length-prefixes exactly these bytes.
#[derive(Clone, PartialEq, Eq, Debug)]
pub struct CreateCollectionAccountArgs {
    pub title: Vec<u8>,
    pub symbol: Vec<u8>,
    pub description: Vec<u8>,
    pub icon_image: Vec<u8>,
    pub header_image: Option<Vec<u8>>,
    pub short_description: Option<Vec<u8>>,
    pub banner: Option<Vec<u8>>,
    pub tags: Option<Vec<Vec<u8>>>,
}

/// The mathematical value of a `CreateCollectionAccountArgs`.
#[verifier::ext_equal]
pub struct ArgsView {
    pub title: Seq<u8>,
    pub symbol: Seq<u8>,
    pub description: Seq<u8>,
    pub icon_image: Seq<u8>,
    pub header_image: Option<Seq<u8>>,
    pub short_description: Option<Seq<u8>>,
    pub banner: Option<Seq<u8>>,
    pub tags: Option<Seq<Seq<u8>>>,
}

/// View of an optional byte string.
pub open spec fn opt_view(o: Option<Vec<u8>>) -> Option<Seq<u8>> {
    match o {
        Option::None => Option::None,
        Option::Some(v) => Option::Some(v@),
    }
}

/// Views of every element of a list of byte strings.
pub open spec fn views_of(ts: Seq<Vec<u8>>) -> Seq<Seq<u8>> {
    Seq::new(ts.len(), |i: int| ts[i]@)
}

/// View of an optional list of byte strings.
pub open spec fn opt_list_view(o: Option<Vec<Vec<u8>>>) -> Option<Seq<Seq<u8>>> {
    match o {
        Option::None => Option::None,
        Option::Some(ts) => Option::Some(views_of(ts@)),
    }
}

impl View for CreateCollectionAccountArgs {
    type V = ArgsView;

    open spec fn view(&self) -> ArgsView {
        ArgsView {
            title: self.title@,
            symbol: self.symbol@,
            description: self.description@,
            icon_image: self.icon_image@,
            header_image: opt_view(self.header_image),
            short_description: opt_view(self.short_description),
            banner: opt_view(self.banner),
            tags: opt_list_view(self.tags),
        }
    }
}

/// The closed set of operations. The variant order is the wire contract:
/// each variant's position is its tag byte, and new variants may only be
/// appended.
#[derive(Clone, PartialEq, Eq, Debug)]
pub enum CollectionInstruction {
    CreateCollectionAccount(CreateCollectionAccountArgs),
    IncludeToken,
    LightUpStarsOnce,
    LightUpStarsHundred,
    LightUpStarsThousand,
    CloseAccount(AccountType),
    Withdraw,
}

/// The mathematical value of a `CollectionInstruction`.
#[verifier::ext_equal]
pub enum CommandView {
    CreateCollectionAccount(ArgsView),
    IncludeToken,
    LightUpStarsOnce,
    LightUpStarsHundred,
    LightUpStarsThousand,
    CloseAccount(AccountType),
    Withdraw,
}

impl View for CollectionInstruction {
    type V = CommandView;

    open spec fn view(&self) -> CommandView {
        match self {
            CollectionInstruction::CreateCollectionAccount(a) => CommandView::CreateCollectionAccount(a@),
            CollectionInstruction::IncludeToken => CommandView::IncludeToken,
            CollectionInstruction::LightUpStarsOnce => CommandView::LightUpStarsOnce,
            CollectionInstruction::LightUpStarsHundred => CommandView::LightUpStarsHundred,
            CollectionInstruction::LightUpStarsThousand => CommandView::LightUpStarsThousand,
            CollectionInstruction::CloseAccount(t) => CommandView::CloseAccount(*t),
            CollectionInstruction::Withdraw => CommandView::Withdraw,
        }
    }
}

/// The tags list is absent, or has at most `MAX_TAGS_ARRAY_LENGTH` entries
/// each strictly shorter than `MAX_TAG_LENGTH`.
pub open spec fn spec_tags_ok(tags: Option<Seq<Seq<u8>>>) -> bool {
    match tags {
        Option::None => true,
        Option::Some(ts) => {
            &&& ts.len() <= MAX_TAGS_ARRAY_LENGTH
            &&& forall|i: int| 0 <= i < ts.len() ==> (#[trigger] ts[i]).len() < MAX_TAG_LENGTH
        },
    }
}

/// Every validation invariant of the create-collection payload.
pub open spec fn spec_valid(a: ArgsView) -> bool {
    &&& a.title.len() <= MAX_TITLE_LENGTH
    &&& a.symbol.len() <= MAX_SYMBOL_LENGTH
    &&& a.description.len() <= MAX_DESCRIPTION_LENGTH
    &&& a.icon_image.len() <= MAX_URI_LENGTH
    &&& (a.header_image matches Option::Some(h) ==> h.len() <= MAX_URI_LENGTH)
    &&& (a.short_description matches Option::Some(s) ==> s.len() <= MAX_SHORT_DESCRIPTION_LENGTH)
    &&& (a.banner matches Option::Some(b) ==> b.len() <= MAX_URI_LENGTH)
    &&& spec_tags_ok(a.tags)
}

impl CreateCollectionAccountArgs {
    /// Decides every validation invariant of the payload.
    pub fn is_valid(&self) -> (r: bool)
        ensures
            r == spec_valid(self@),
    {
        let title_ok = self.title.len() <= MAX_TITLE_LENGTH;
        let symbol_ok = self.symbol.len() <= MAX_SYMBOL_LENGTH;
        let description_ok = self.description.len() <= MAX_DESCRIPTION_LENGTH;
        let icon_ok = self.icon_image.len() <= MAX_URI_LENGTH;
        let header_ok = match &self.header_image {
            Option::None => true,
            Option::Some(h) => h.len() <= MAX_URI_LENGTH,
        };
        let short_ok = match &self.short_description {
            Option::None => true,
            Option::Some(s) => s.len() <= MAX_SHORT_DESCRIPTION_LENGTH,
        };
        let banner_ok = match &self.banner {
            Option::None => true,
            Option::Some(b) => b.len() <= MAX_URI_LENGTH,
        };
        title_ok && symbol_ok && description_ok && icon_ok && header_ok && short_ok && banner_ok
            && self.check_tags()
    }

    /// Decides the tags invariant alone.
    pub fn check_tags(&self) -> (r: bool)
        ensures
            r == spec_tags_ok(self@.tags),
    {
        match &self.tags {
            Option::None => true,
            Option::Some(ts) => {
                if ts.len() > MAX_TAGS_ARRAY_LENGTH {
                    return false;
                }
                let mut i: usize = 0;
                while i < ts.len()
                    invariant
                        i <= ts@.len(),
                        self.tags == Option::Some(*ts),
                        forall|j: int| 0 <= j < i ==> (#[trigger] ts@[j])@.len() < MAX_TAG_LENGTH,
                    decreases ts@.len() - i,
                {
                    if ts[i].len() >= MAX_TAG_LENGTH {
                        assert(views_of(ts@)[i as int].len() >= MAX_TAG_LENGTH);
                        return false;
                    }
                    i += 1;
                }
                assert(forall|j: int| 0 <= j < views_of(ts@).len()
                    ==> (#[trigger] views_of(ts@)[j]).len() < MAX_TAG_LENGTH);
                true
            },
        }
    }
}

} // verus!
