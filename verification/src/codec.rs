//! The canonical binary encoding of a command: `tag_byte ++ payload_bytes`,
//! with 4-byte little-endian length prefixes for byte strings, a one-byte
//! presence flag for optional fields, and a 4-byte element count for the
//! tags list. `encode` and `decode` are proved to be exact inverses over
//! this spec, and the spec is proved injective.
use vstd::prelude::*;

use crate::instruction::ArgsView;
use crate::instruction::CollectionError;
use crate::instruction::CollectionInstruction;
use crate::instruction::CommandView;
use crate::instruction::CreateCollectionAccountArgs;
use crate::instruction::AccountType;
use crate::instruction::opt_view;
use crate::instruction::opt_list_view;
use crate::instruction::views_of;
use crate::instruction::spec_valid;

verus! {

/// A length or count fits the 4-byte prefix of the wire format.
pub open spec fn fits_u32(n: nat) -> bool {
    n < 0x1_0000_0000
}

/// The four little-endian bytes of a 32-bit value.
pub open spec fn u32_le(n: u32) -> Seq<u8> {
    seq![
        (n & 0xff) as u8,
        ((n >> 8) & 0xff) as u8,
        ((n >> 16) & 0xff) as u8,
        ((n >> 24) & 0xff) as u8,
    ]
}

/// The 32-bit value read back from four little-endian bytes.
pub open spec fn u32_from_le(b0: u8, b1: u8, b2: u8, b3: u8) -> u32 {
    (b0 as u32) | ((b1 as u32) << 8) | ((b2 as u32) << 16) | ((b3 as u32) << 24)
}

/// A byte string on the wire: 4-byte length, then the bytes.
pub open spec fn enc_bytes(s: Seq<u8>) -> Seq<u8> {
    u32_le(s.len() as u32) + s
}

/// An optional byte string: presence flag, then the string if present.
pub open spec fn enc_opt_bytes(o: Option<Seq<u8>>) -> Seq<u8> {
    match o {
        Option::None => seq![0u8],
        Option::Some(s) => seq![1u8] + enc_bytes(s),
    }
}

/// The elements of a list, each as a byte string, in order.
pub open spec fn enc_list(ts: Seq<Seq<u8>>) -> Seq<u8>
    decreases ts.len(),
{
    if ts.len() == 0 {
        Seq::empty()
    } else {
        enc_bytes(ts[0]) + enc_list(ts.skip(1))
    }
}

/// A list on the wire: 4-byte element count, then the elements.
pub open spec fn enc_tag_list(ts: Seq<Seq<u8>>) -> Seq<u8> {
    u32_le(ts.len() as u32) + enc_list(ts)
}

/// An optional list: presence flag, then the list if present.
pub open spec fn enc_opt_tag_list(o: Option<Seq<Seq<u8>>>) -> Seq<u8> {
    match o {
        Option::None => seq![0u8],
        Option::Some(ts) => seq![1u8] + enc_tag_list(ts),
    }
}

/// The create-collection payload: its fields in declaration order.
pub open spec fn enc_args(a: ArgsView) -> Seq<u8> {
    enc_bytes(a.title) + enc_bytes(a.symbol) + enc_bytes(a.description) + enc_bytes(a.icon_image)
        + enc_opt_bytes(a.header_image) + enc_opt_bytes(a.short_description)
        + enc_opt_bytes(a.banner) + enc_opt_tag_list(a.tags)
}

/// The tag byte of a command: its position in the variant order.
pub open spec fn tag_byte(c: CommandView) -> u8 {
    match c {
        CommandView::CreateCollectionAccount(_) => 0,
        CommandView::IncludeToken => 1,
        CommandView::LightUpStarsOnce => 2,
        CommandView::LightUpStarsHundred => 3,
        CommandView::LightUpStarsThousand => 4,
        CommandView::CloseAccount(_) => 5,
        CommandView::Withdraw => 6,
    }
}

/// The whole encoding of a command: tag byte, then the payload.
pub open spec fn spec_encode(c: CommandView) -> Seq<u8> {
    match c {
        CommandView::CreateCollectionAccount(a) => seq![0u8] + enc_args(a),
        CommandView::IncludeToken => seq![1u8],
        CommandView::LightUpStarsOnce => seq![2u8],
        CommandView::LightUpStarsHundred => seq![3u8],
        CommandView::LightUpStarsThousand => seq![4u8],
        CommandView::CloseAccount(t) => seq![5u8, t.ordinal],
        CommandView::Withdraw => seq![6u8],
    }
}

/// Every length and count of the tags list fits its 4-byte prefix.
pub open spec fn tags_encodable(ts: Seq<Seq<u8>>) -> bool {
    &&& fits_u32(ts.len())
    &&& forall|i: int| 0 <= i < ts.len() ==> fits_u32((#[trigger] ts[i]).len())
}

/// Every length and count of the payload fits its 4-byte prefix.
pub open spec fn args_encodable(a: ArgsView) -> bool {
    &&& fits_u32(a.title.len())
    &&& fits_u32(a.symbol.len())
    &&& fits_u32(a.description.len())
    &&& fits_u32(a.icon_image.len())
    &&& (a.header_image matches Option::Some(h) ==> fits_u32(h.len()))
    &&& (a.short_description matches Option::Some(s) ==> fits_u32(s.len()))
    &&& (a.banner matches Option::Some(b) ==> fits_u32(b.len()))
    &&& (a.tags matches Option::Some(ts) ==> tags_encodable(ts))
}

/// Every length and count of the command fits its 4-byte prefix; only the
/// create-collection payload carries any.
pub open spec fn encodable(c: CommandView) -> bool {
    match c {
        CommandView::CreateCollectionAccount(a) => args_encodable(a),
        _ => true,
    }
}

/// A payload that passes validation is far below every length prefix bound.
pub proof fn lemma_valid_args_encodable(a: ArgsView)
    requires
        spec_valid(a),
    ensures
        args_encodable(a),
{
    if let Option::Some(ts) = a.tags {
        assert(forall|i: int| 0 <= i < ts.len() ==> fits_u32((#[trigger] ts[i]).len()));
    }
}

fn push_u32_le(out: &mut Vec<u8>, n: u32)
    ensures
        final(out)@ == old(out)@ + u32_le(n),
{
    out.push((n & 0xff) as u8);
    out.push(((n >> 8) & 0xff) as u8);
    out.push(((n >> 16) & 0xff) as u8);
    out.push(((n >> 24) & 0xff) as u8);
    assert(out@ =~= old(out)@ + u32_le(n));
}

fn push_bytes(out: &mut Vec<u8>, b: &Vec<u8>)
    requires
        fits_u32(b@.len()),
    ensures
        final(out)@ == old(out)@ + enc_bytes(b@),
{
    let n = b.len() as u32;
    push_u32_le(out, n);
    let mut i: usize = 0;
    while i < b.len()
        invariant
            i <= b@.len(),
            n == b@.len() as u32,
            fits_u32(b@.len()),
            out@ == old(out)@ + u32_le(n) + b@.take(i as int),
        decreases b@.len() - i,
    {
        out.push(b[i]);
        assert(b@.take(i + 1 as int) =~= b@.take(i as int).push(b@[i as int]));
        i += 1;
    }
    assert(b@.take(b@.len() as int) =~= b@);
    assert(out@ =~= old(out)@ + enc_bytes(b@));
}

fn push_opt_bytes(out: &mut Vec<u8>, o: &Option<Vec<u8>>)
    requires
        *o matches Option::Some(v) ==> fits_u32(v@.len()),
    ensures
        final(out)@ == old(out)@ + enc_opt_bytes(opt_view(*o)),
{
    match o {
        Option::None => {
            out.push(0u8);
            assert(out@ =~= old(out)@ + enc_opt_bytes(opt_view(*o)));
        },
        Option::Some(v) => {
            out.push(1u8);
            push_bytes(out, v);
            assert(out@ =~= old(out)@ + enc_opt_bytes(opt_view(*o)));
        },
    }
}

/// Appending one more element extends the element encoding on the right.
proof fn lemma_enc_list_snoc(ts: Seq<Seq<u8>>, i: int)
    requires
        0 <= i < ts.len(),
    ensures
        enc_list(ts.take(i + 1)) == enc_list(ts.take(i)) + enc_bytes(ts[i]),
    decreases i,
{
    if i == 0 {
        assert(ts.take(1)[0] == ts[0]);
        assert(ts.take(1).skip(1) =~= Seq::<Seq<u8>>::empty());
        assert(ts.take(0) =~= Seq::<Seq<u8>>::empty());
        assert(enc_list(ts.take(1)) =~= enc_list(ts.take(0)) + enc_bytes(ts[0]));
    } else {
        lemma_enc_list_snoc(ts.skip(1), i - 1);
        assert(ts.take(i + 1)[0] == ts[0]);
        assert(ts.take(i + 1).skip(1) =~= ts.skip(1).take(i));
        assert(ts.take(i).skip(1) =~= ts.skip(1).take(i - 1));
        assert(ts.take(i)[0] == ts[0]);
        assert(ts.skip(1)[i - 1] == ts[i]);
        assert(enc_list(ts.take(i + 1)) =~= enc_list(ts.take(i)) + enc_bytes(ts[i]));
    }
}

fn push_tag_list(out: &mut Vec<u8>, ts: &Vec<Vec<u8>>)
    requires
        tags_encodable(views_of(ts@)),
    ensures
        final(out)@ == old(out)@ + enc_tag_list(views_of(ts@)),
{
    let n = ts.len() as u32;
    push_u32_le(out, n);
    let mut i: usize = 0;
    while i < ts.len()
        invariant
            i <= ts@.len(),
            n == ts@.len() as u32,
            tags_encodable(views_of(ts@)),
            out@ == old(out)@ + u32_le(n) + enc_list(views_of(ts@).take(i as int)),
        decreases ts@.len() - i,
    {
        assert(views_of(ts@)[i as int] == ts@[i as int]@);
        push_bytes(out, &ts[i]);
        proof {
            lemma_enc_list_snoc(views_of(ts@), i as int);
        }
        i += 1;
    }
    assert(views_of(ts@).take(ts@.len() as int) =~= views_of(ts@));
    assert(out@ =~= old(out)@ + enc_tag_list(views_of(ts@)));
}

/// Produces `spec_encode` of the command, byte for byte.
#[verifier::rlimit(60)]
pub fn encode(c: &CollectionInstruction) -> (r: Vec<u8>)
    requires
        encodable(c@),
    ensures
        r@ == spec_encode(c@),
{
    let mut out: Vec<u8> = Vec::new();
    match c {
        CollectionInstruction::CreateCollectionAccount(a) => {
            out.push(0u8);
            push_bytes(&mut out, &a.title);
            push_bytes(&mut out, &a.symbol);
            push_bytes(&mut out, &a.description);
            push_bytes(&mut out, &a.icon_image);
            push_opt_bytes(&mut out, &a.header_image);
            push_opt_bytes(&mut out, &a.short_description);
            push_opt_bytes(&mut out, &a.banner);
            match &a.tags {
                Option::None => {
                    out.push(0u8);
                },
                Option::Some(ts) => {
                    out.push(1u8);
                    push_tag_list(&mut out, ts);
                },
            }
            assert(out@ =~= spec_encode(c@));
        },
        CollectionInstruction::IncludeToken => {
            out.push(1u8);
            assert(out@ =~= spec_encode(c@));
        },
        CollectionInstruction::LightUpStarsOnce => {
            out.push(2u8);
            assert(out@ =~= spec_encode(c@));
        },
        CollectionInstruction::LightUpStarsHundred => {
            out.push(3u8);
            assert(out@ =~= spec_encode(c@));
        },
        CollectionInstruction::LightUpStarsThousand => {
            out.push(4u8);
            assert(out@ =~= spec_encode(c@));
        },
        CollectionInstruction::CloseAccount(t) => {
            out.push(5u8);
            out.push(t.ordinal);
            assert(out@ =~= spec_encode(c@));
        },
        CollectionInstruction::Withdraw => {
            out.push(6u8);
            assert(out@ =~= spec_encode(c@));
        },
    }
    out
}

/// The bytes `p` stand at position `i` of `b`.
pub open spec fn prefix_at(b: Seq<u8>, i: int, p: Seq<u8>) -> bool {
    &&& 0 <= i
    &&& i + p.len() <= b.len()
    &&& b.subrange(i, i + p.len() as int) == p
}

/// A concatenation at position `i` splits into its two parts.
proof fn lemma_prefix_split(b: Seq<u8>, i: int, x: Seq<u8>, y: Seq<u8>)
    requires
        prefix_at(b, i, x + y),
    ensures
        prefix_at(b, i, x),
        prefix_at(b, i + x.len(), y),
{
    assert forall|k: int| 0 <= k < x.len() implies b[i + k] == x[k] by {
        assert(b.subrange(i, i + (x + y).len() as int)[k] == (x + y)[k]);
    }
    assert forall|m: int| 0 <= m < y.len() implies b[i + x.len() + m] == y[m] by {
        let k = x.len() + m;
        assert(b.subrange(i, i + (x + y).len() as int)[k] == (x + y)[k]);
    }
    assert(b.subrange(i, i + x.len() as int) =~= x);
    assert(b.subrange(i + x.len(), i + x.len() + y.len() as int) =~= y);
}

/// Two adjacent parts at position `i` join into their concatenation.
proof fn lemma_prefix_join(b: Seq<u8>, i: int, x: Seq<u8>, y: Seq<u8>)
    requires
        prefix_at(b, i, x),
        prefix_at(b, i + x.len(), y),
    ensures
        prefix_at(b, i, x + y),
{
    assert forall|k: int| 0 <= k < x.len() implies b[i + k] == x[k] by {
        assert(b.subrange(i, i + x.len() as int)[k] == x[k]);
    }
    assert forall|k: int| 0 <= k < y.len() implies b[i + x.len() + k] == y[k] by {
        assert(b.subrange(i + x.len(), i + x.len() + y.len() as int)[k] == y[k]);
    }
    assert(b.subrange(i, i + (x + y).len() as int) =~= x + y);
}

proof fn lemma_u32_le_of_from(b0: u8, b1: u8, b2: u8, b3: u8)
    ensures
        u32_le(u32_from_le(b0, b1, b2, b3)) == seq![b0, b1, b2, b3],
{
    let n = u32_from_le(b0, b1, b2, b3);
    assert(((b0 as u32) | ((b1 as u32) << 8) | ((b2 as u32) << 16) | ((b3 as u32) << 24)) & 0xff
        == b0 as u32) by (bit_vector);
    assert((((b0 as u32) | ((b1 as u32) << 8) | ((b2 as u32) << 16) | ((b3 as u32) << 24)) >> 8)
        & 0xff == b1 as u32) by (bit_vector);
    assert((((b0 as u32) | ((b1 as u32) << 8) | ((b2 as u32) << 16) | ((b3 as u32) << 24)) >> 16)
        & 0xff == b2 as u32) by (bit_vector);
    assert((((b0 as u32) | ((b1 as u32) << 8) | ((b2 as u32) << 16) | ((b3 as u32) << 24)) >> 24)
        & 0xff == b3 as u32) by (bit_vector);
    assert(u32_le(n) =~= seq![b0, b1, b2, b3]);
}

proof fn lemma_u32_from_of_le(n: u32)
    ensures
        u32_from_le(u32_le(n)[0], u32_le(n)[1], u32_le(n)[2], u32_le(n)[3]) == n,
{
    assert((((n & 0xff) as u8) as u32) | (((((n >> 8) & 0xff) as u8) as u32) << 8)
        | (((((n >> 16) & 0xff) as u8) as u32) << 16) | (((((n >> 24) & 0xff) as u8) as u32) << 24)
        == n) by (bit_vector);
}

/// Reads the 4-byte length or count that starts at `i`.
pub open spec fn spec_parse_u32(b: Seq<u8>, i: int) -> Option<(u32, int)> {
    if 0 <= i && i + 4 <= b.len() {
        Option::Some((u32_from_le(b[i], b[i + 1], b[i + 2], b[i + 3]), i + 4))
    } else {
        Option::None
    }
}

/// Reads a length-prefixed byte string that starts at `i`.
pub open spec fn spec_parse_bytes(b: Seq<u8>, i: int) -> Option<(Seq<u8>, int)> {
    match spec_parse_u32(b, i) {
        Option::None => Option::None,
        Option::Some((n, j)) => if j + (n as int) <= b.len() {
            Option::Some((b.subrange(j, j + (n as int)), j + (n as int)))
        } else {
            Option::None
        },
    }
}

/// Reads a flagged optional byte string that starts at `i`.
pub open spec fn spec_parse_opt_bytes(b: Seq<u8>, i: int) -> Option<(Option<Seq<u8>>, int)> {
    if 0 <= i && i < b.len() {
        if b[i] == 0 {
            Option::Some((Option::None, i + 1))
        } else if b[i] == 1 {
            match spec_parse_bytes(b, i + 1) {
                Option::None => Option::None,
                Option::Some((s, j)) => Option::Some((Option::Some(s), j)),
            }
        } else {
            Option::None
        }
    } else {
        Option::None
    }
}

/// Reads `n` byte strings in a row, starting at `i`.
pub open spec fn spec_parse_list(b: Seq<u8>, i: int, n: nat) -> Option<(Seq<Seq<u8>>, int)>
    decreases n,
{
    if n == 0 {
        Option::Some((Seq::empty(), i))
    } else {
        match spec_parse_bytes(b, i) {
            Option::None => Option::None,
            Option::Some((s, j)) => match spec_parse_list(b, j, (n - 1) as nat) {
                Option::None => Option::None,
                Option::Some((ts, k)) => Option::Some((seq![s] + ts, k)),
            },
        }
    }
}

/// Reads a counted list of byte strings that starts at `i`.
pub open spec fn spec_parse_tag_list(b: Seq<u8>, i: int) -> Option<(Seq<Seq<u8>>, int)> {
    match spec_parse_u32(b, i) {
        Option::None => Option::None,
        Option::Some((n, j)) => spec_parse_list(b, j, n as nat),
    }
}

/// Reads a flagged optional counted list that starts at `i`.
pub open spec fn spec_parse_opt_tag_list(b: Seq<u8>, i: int) -> Option<(Option<Seq<Seq<u8>>>, int)> {
    if 0 <= i && i < b.len() {
        if b[i] == 0 {
            Option::Some((Option::None, i + 1))
        } else if b[i] == 1 {
            match spec_parse_tag_list(b, i + 1) {
                Option::None => Option::None,
                Option::Some((ts, j)) => Option::Some((Option::Some(ts), j)),
            }
        } else {
            Option::None
        }
    } else {
        Option::None
    }
}

/// Reads the whole create-collection payload that starts at `i`.
pub open spec fn spec_parse_args(b: Seq<u8>, i: int) -> Option<(ArgsView, int)> {
    match spec_parse_bytes(b, i) {
        Option::None => Option::None,
        Option::Some((title, i1)) => match spec_parse_bytes(b, i1) {
            Option::None => Option::None,
            Option::Some((symbol, i2)) => match spec_parse_bytes(b, i2) {
                Option::None => Option::None,
                Option::Some((description, i3)) => match spec_parse_bytes(b, i3) {
                    Option::None => Option::None,
                    Option::Some((icon_image, i4)) => match spec_parse_opt_bytes(b, i4) {
                        Option::None => Option::None,
                        Option::Some((header_image, i5)) => match spec_parse_opt_bytes(b, i5) {
                            Option::None => Option::None,
                            Option::Some((short_description, i6)) => match spec_parse_opt_bytes(b, i6) {
                                Option::None => Option::None,
                                Option::Some((banner, i7)) => match spec_parse_opt_tag_list(b, i7) {
                                    Option::None => Option::None,
                                    Option::Some((tags, i8)) => Option::Some((
                                        ArgsView {
                                            title,
                                            symbol,
                                            description,
                                            icon_image,
                                            header_image,
                                            short_description,
                                            banner,
                                            tags,
                                        },
                                        i8,
                                    )),
                                },
                            },
                        },
                    },
                },
            },
        },
    }
}

proof fn lemma_parse_u32_sound(b: Seq<u8>, i: int, n: u32, j: int)
    requires
        spec_parse_u32(b, i) == Option::Some((n, j)),
    ensures
        j == i + 4,
        prefix_at(b, i, u32_le(n)),
{
    lemma_u32_le_of_from(b[i], b[i + 1], b[i + 2], b[i + 3]);
    assert(b.subrange(i, i + 4) =~= seq![b[i], b[i + 1], b[i + 2], b[i + 3]]);
}

proof fn lemma_parse_u32_complete(b: Seq<u8>, i: int, n: u32)
    requires
        prefix_at(b, i, u32_le(n)),
    ensures
        spec_parse_u32(b, i) == Option::Some((n, i + 4)),
{
    assert(b[i] == u32_le(n)[0] && b[i + 1] == u32_le(n)[1] && b[i + 2] == u32_le(n)[2]
        && b[i + 3] == u32_le(n)[3]) by {
        assert(forall|k: int| 0 <= k < 4 ==> #[trigger] b.subrange(i, i + 4)[k] == b[i + k]);
    }
    lemma_u32_from_of_le(n);
}

proof fn lemma_parse_bytes_sound(b: Seq<u8>, i: int, s: Seq<u8>, j: int)
    requires
        spec_parse_bytes(b, i) == Option::Some((s, j)),
    ensures
        fits_u32(s.len()),
        j == i + enc_bytes(s).len(),
        prefix_at(b, i, enc_bytes(s)),
{
    match spec_parse_u32(b, i) {
        Option::None => {
            assert(false);
        },
        Option::Some((n, i4)) => {
            lemma_parse_u32_sound(b, i, n, i4);
            assert(s.len() == n as nat);
            assert(s.len() as u32 == n);
            assert(prefix_at(b, i4, s));
            lemma_prefix_join(b, i, u32_le(n), s);
        },
    }
}

proof fn lemma_parse_bytes_complete(b: Seq<u8>, i: int, s: Seq<u8>)
    requires
        fits_u32(s.len()),
        prefix_at(b, i, enc_bytes(s)),
    ensures
        spec_parse_bytes(b, i) == Option::Some((s, i + enc_bytes(s).len())),
{
    lemma_prefix_split(b, i, u32_le(s.len() as u32), s);
    lemma_parse_u32_complete(b, i, s.len() as u32);
    assert(b.subrange(i + 4, i + 4 + s.len() as int) =~= s);
}

proof fn lemma_parse_opt_bytes_sound(b: Seq<u8>, i: int, o: Option<Seq<u8>>, j: int)
    requires
        spec_parse_opt_bytes(b, i) == Option::Some((o, j)),
    ensures
        o matches Option::Some(s) ==> fits_u32(s.len()),
        j == i + enc_opt_bytes(o).len(),
        prefix_at(b, i, enc_opt_bytes(o)),
{
    if b[i] == 0 {
        assert(b.subrange(i, i + 1) =~= seq![0u8]);
    } else {
        match spec_parse_bytes(b, i + 1) {
            Option::None => {
                assert(false);
            },
            Option::Some((s, j1)) => {
                lemma_parse_bytes_sound(b, i + 1, s, j1);
                assert(b.subrange(i, i + 1) =~= seq![1u8]);
                assert(prefix_at(b, i, seq![1u8]));
                lemma_prefix_join(b, i, seq![1u8], enc_bytes(s));
            },
        }
    }
}

proof fn lemma_parse_opt_bytes_complete(b: Seq<u8>, i: int, o: Option<Seq<u8>>)
    requires
        o matches Option::Some(s) ==> fits_u32(s.len()),
        prefix_at(b, i, enc_opt_bytes(o)),
    ensures
        spec_parse_opt_bytes(b, i) == Option::Some((o, i + enc_opt_bytes(o).len())),
{
    match o {
        Option::None => {
            assert(b[i] == 0) by {
                assert(b.subrange(i, i + 1)[0] == b[i]);
            }
        },
        Option::Some(s) => {
            lemma_prefix_split(b, i, seq![1u8], enc_bytes(s));
            assert(b[i] == 1) by {
                assert(b.subrange(i, i + 1)[0] == b[i]);
            }
            lemma_parse_bytes_complete(b, i + 1, s);
        },
    }
}

proof fn lemma_parse_list_sound(b: Seq<u8>, i: int, n: nat, ts: Seq<Seq<u8>>, j: int)
    requires
        0 <= i <= b.len(),
        spec_parse_list(b, i, n) == Option::Some((ts, j)),
    ensures
        ts.len() == n,
        forall|k: int| 0 <= k < ts.len() ==> fits_u32((#[trigger] ts[k]).len()),
        j == i + enc_list(ts).len(),
        prefix_at(b, i, enc_list(ts)),
    decreases n,
{
    if n == 0 {
        assert(b.subrange(i, i) =~= Seq::<u8>::empty());
    } else {
        match spec_parse_bytes(b, i) {
            Option::None => {
                assert(false);
            },
            Option::Some((s, j1)) => {
                lemma_parse_bytes_sound(b, i, s, j1);
                match spec_parse_list(b, j1, (n - 1) as nat) {
                    Option::None => {
                        assert(false);
                    },
                    Option::Some((rest, k)) => {
                        lemma_parse_list_sound(b, j1, (n - 1) as nat, rest, k);
                        assert(ts == seq![s] + rest);
                        assert(ts[0] == s);
                        assert(ts.skip(1) =~= rest);
                        lemma_prefix_join(b, i, enc_bytes(s), enc_list(rest));
                        assert(enc_list(ts) == enc_bytes(s) + enc_list(rest));
                        assert(forall|q: int| 0 <= q < ts.len() ==> fits_u32(
                            (#[trigger] ts[q]).len())) by {
                            assert(forall|q: int| 1 <= q < ts.len() ==> ts[q] == rest[q - 1]);
                        }
                    },
                }
            },
        }
    }
}

proof fn lemma_parse_list_complete(b: Seq<u8>, i: int, ts: Seq<Seq<u8>>)
    requires
        forall|k: int| 0 <= k < ts.len() ==> fits_u32((#[trigger] ts[k]).len()),
        prefix_at(b, i, enc_list(ts)),
    ensures
        spec_parse_list(b, i, ts.len()) == Option::Some((ts, i + enc_list(ts).len())),
    decreases ts.len(),
{
    if ts.len() == 0 {
        assert(ts =~= Seq::<Seq<u8>>::empty());
    } else {
        assert(enc_list(ts) == enc_bytes(ts[0]) + enc_list(ts.skip(1)));
        lemma_prefix_split(b, i, enc_bytes(ts[0]), enc_list(ts.skip(1)));
        lemma_parse_bytes_complete(b, i, ts[0]);
        assert(forall|k: int| 0 <= k < ts.skip(1).len() ==> fits_u32(
            (#[trigger] ts.skip(1)[k]).len())) by {
            assert(forall|k: int| 0 <= k < ts.skip(1).len() ==> ts.skip(1)[k] == ts[k + 1]);
        }
        lemma_parse_list_complete(b, i + enc_bytes(ts[0]).len(), ts.skip(1));
        assert(seq![ts[0]] + ts.skip(1) =~= ts);
    }
}

proof fn lemma_parse_tag_list_sound(b: Seq<u8>, i: int, ts: Seq<Seq<u8>>, j: int)
    requires
        spec_parse_tag_list(b, i) == Option::Some((ts, j)),
    ensures
        tags_encodable(ts),
        j == i + enc_tag_list(ts).len(),
        prefix_at(b, i, enc_tag_list(ts)),
{
    match spec_parse_u32(b, i) {
        Option::None => {
            assert(false);
        },
        Option::Some((n, i4)) => {
            lemma_parse_u32_sound(b, i, n, i4);
            lemma_parse_list_sound(b, i4, n as nat, ts, j);
            assert(ts.len() as u32 == n);
            lemma_prefix_join(b, i, u32_le(n), enc_list(ts));
        },
    }
}

proof fn lemma_parse_tag_list_complete(b: Seq<u8>, i: int, ts: Seq<Seq<u8>>)
    requires
        tags_encodable(ts),
        prefix_at(b, i, enc_tag_list(ts)),
    ensures
        spec_parse_tag_list(b, i) == Option::Some((ts, i + enc_tag_list(ts).len())),
{
    lemma_prefix_split(b, i, u32_le(ts.len() as u32), enc_list(ts));
    lemma_parse_u32_complete(b, i, ts.len() as u32);
    lemma_parse_list_complete(b, i + 4, ts);
    assert((ts.len() as u32) as nat == ts.len());
}

proof fn lemma_parse_opt_tag_list_sound(b: Seq<u8>, i: int, o: Option<Seq<Seq<u8>>>, j: int)
    requires
        spec_parse_opt_tag_list(b, i) == Option::Some((o, j)),
    ensures
        o matches Option::Some(ts) ==> tags_encodable(ts),
        j == i + enc_opt_tag_list(o).len(),
        prefix_at(b, i, enc_opt_tag_list(o)),
{
    if b[i] == 0 {
        assert(b.subrange(i, i + 1) =~= seq![0u8]);
    } else {
        match spec_parse_tag_list(b, i + 1) {
            Option::None => {
                assert(false);
            },
            Option::Some((ts, j1)) => {
                lemma_parse_tag_list_sound(b, i + 1, ts, j1);
                assert(b.subrange(i, i + 1) =~= seq![1u8]);
                assert(prefix_at(b, i, seq![1u8]));
                lemma_prefix_join(b, i, seq![1u8], enc_tag_list(ts));
            },
        }
    }
}

proof fn lemma_parse_opt_tag_list_complete(b: Seq<u8>, i: int, o: Option<Seq<Seq<u8>>>)
    requires
        o matches Option::Some(ts) ==> tags_encodable(ts),
        prefix_at(b, i, enc_opt_tag_list(o)),
    ensures
        spec_parse_opt_tag_list(b, i) == Option::Some((o, i + enc_opt_tag_list(o).len())),
{
    match o {
        Option::None => {
            assert(b[i] == 0) by {
                assert(b.subrange(i, i + 1)[0] == b[i]);
            }
        },
        Option::Some(ts) => {
            lemma_prefix_split(b, i, seq![1u8], enc_tag_list(ts));
            assert(b[i] == 1) by {
                assert(b.subrange(i, i + 1)[0] == b[i]);
            }
            lemma_parse_tag_list_complete(b, i + 1, ts);
        },
    }
}

proof fn lemma_parse_args_sound(b: Seq<u8>, i: int, a: ArgsView, j: int)
    requires
        spec_parse_args(b, i) == Option::Some((a, j)),
    ensures
        args_encodable(a),
        j == i + enc_args(a).len(),
        prefix_at(b, i, enc_args(a)),
{
    let e1 = enc_bytes(a.title);
    let e2 = enc_bytes(a.symbol);
    let e3 = enc_bytes(a.description);
    let e4 = enc_bytes(a.icon_image);
    let e5 = enc_opt_bytes(a.header_image);
    let e6 = enc_opt_bytes(a.short_description);
    let e7 = enc_opt_bytes(a.banner);
    let e8 = enc_opt_tag_list(a.tags);
    match spec_parse_bytes(b, i) {
        Option::None => { assert(false); },
        Option::Some((title, i1)) => {
            lemma_parse_bytes_sound(b, i, title, i1);
            match spec_parse_bytes(b, i1) {
                Option::None => { assert(false); },
                Option::Some((symbol, i2)) => {
                    lemma_parse_bytes_sound(b, i1, symbol, i2);
                    match spec_parse_bytes(b, i2) {
                        Option::None => { assert(false); },
                        Option::Some((description, i3)) => {
                            lemma_parse_bytes_sound(b, i2, description, i3);
                            match spec_parse_bytes(b, i3) {
                                Option::None => { assert(false); },
                                Option::Some((icon_image, i4)) => {
                                    lemma_parse_bytes_sound(b, i3, icon_image, i4);
                                    match spec_parse_opt_bytes(b, i4) {
                                        Option::None => { assert(false); },
                                        Option::Some((header_image, i5)) => {
                                            lemma_parse_opt_bytes_sound(b, i4, header_image, i5);
                                            match spec_parse_opt_bytes(b, i5) {
                                                Option::None => { assert(false); },
                                                Option::Some((short_description, i6)) => {
                                                    lemma_parse_opt_bytes_sound(b, i5, short_description, i6);
                                                    match spec_parse_opt_bytes(b, i6) {
                                                        Option::None => { assert(false); },
                                                        Option::Some((banner, i7)) => {
                                                            lemma_parse_opt_bytes_sound(b, i6, banner, i7);
                                                            match spec_parse_opt_tag_list(b, i7) {
                                                                Option::None => { assert(false); },
                                                                Option::Some((tags, i8)) => {
                                                                    lemma_parse_opt_tag_list_sound(b, i7, tags, i8);
                                                                    lemma_prefix_join(b, i, e1, e2);
                                                                    lemma_prefix_join(b, i, e1 + e2, e3);
                                                                    lemma_prefix_join(b, i, e1 + e2 + e3, e4);
                                                                    lemma_prefix_join(b, i, e1 + e2 + e3 + e4, e5);
                                                                    lemma_prefix_join(b, i, e1 + e2 + e3 + e4 + e5, e6);
                                                                    lemma_prefix_join(b, i, e1 + e2 + e3 + e4 + e5 + e6, e7);
                                                                    lemma_prefix_join(b, i, e1 + e2 + e3 + e4 + e5 + e6 + e7, e8);
                                                                },
                                                            }
                                                        },
                                                    }
                                                },
                                            }
                                        },
                                    }
                                },
                            }
                        },
                    }
                },
            }
        },
    }
}

proof fn lemma_parse_args_complete(b: Seq<u8>, i: int, a: ArgsView)
    requires
        args_encodable(a),
        prefix_at(b, i, enc_args(a)),
    ensures
        spec_parse_args(b, i) == Option::Some((a, i + enc_args(a).len())),
{
    let e1 = enc_bytes(a.title);
    let e2 = enc_bytes(a.symbol);
    let e3 = enc_bytes(a.description);
    let e4 = enc_bytes(a.icon_image);
    let e5 = enc_opt_bytes(a.header_image);
    let e6 = enc_opt_bytes(a.short_description);
    let e7 = enc_opt_bytes(a.banner);
    let e8 = enc_opt_tag_list(a.tags);
    lemma_prefix_split(b, i, e1 + e2 + e3 + e4 + e5 + e6 + e7, e8);
    lemma_prefix_split(b, i, e1 + e2 + e3 + e4 + e5 + e6, e7);
    lemma_prefix_split(b, i, e1 + e2 + e3 + e4 + e5, e6);
    lemma_prefix_split(b, i, e1 + e2 + e3 + e4, e5);
    lemma_prefix_split(b, i, e1 + e2 + e3, e4);
    lemma_prefix_split(b, i, e1 + e2, e3);
    lemma_prefix_split(b, i, e1, e2);
    lemma_parse_bytes_complete(b, i, a.title);
    lemma_parse_bytes_complete(b, i + e1.len(), a.symbol);
    lemma_parse_bytes_complete(b, i + e1.len() + e2.len(), a.description);
    lemma_parse_bytes_complete(b, i + e1.len() + e2.len() + e3.len(), a.icon_image);
    lemma_parse_opt_bytes_complete(b, i + e1.len() + e2.len() + e3.len() + e4.len(),
        a.header_image);
    lemma_parse_opt_bytes_complete(b, i + e1.len() + e2.len() + e3.len() + e4.len() + e5.len(),
        a.short_description);
    lemma_parse_opt_bytes_complete(b,
        i + e1.len() + e2.len() + e3.len() + e4.len() + e5.len() + e6.len(), a.banner);
    lemma_parse_opt_tag_list_complete(b,
        i + e1.len() + e2.len() + e3.len() + e4.len() + e5.len() + e6.len() + e7.len(), a.tags);
    assert((ArgsView {
        title: a.title,
        symbol: a.symbol,
        description: a.description,
        icon_image: a.icon_image,
        header_image: a.header_image,
        short_description: a.short_description,
        banner: a.banner,
        tags: a.tags,
    }) =~= a);
}

fn parse_u32(b: &Vec<u8>, i: usize) -> (r: Option<(u32, usize)>)
    ensures
        (match r {
            Option::Some((n, j)) => spec_parse_u32(b@, i as int) == Option::Some((n, j as int)),
            Option::None => spec_parse_u32(b@, i as int) is None,
        }),
{
    if b.len() >= 4 && i <= b.len() - 4 {
        let n = (b[i] as u32) | ((b[i + 1] as u32) << 8) | ((b[i + 2] as u32) << 16)
            | ((b[i + 3] as u32) << 24);
        Option::Some((n, i + 4))
    } else {
        Option::None
    }
}

fn parse_bytes(b: &Vec<u8>, i: usize) -> (r: Option<(Vec<u8>, usize)>)
    ensures
        (match r {
            Option::Some((v, j)) => spec_parse_bytes(b@, i as int) == Option::Some((v@, j as int)),
            Option::None => spec_parse_bytes(b@, i as int) is None,
        }),
{
    match parse_u32(b, i) {
        Option::None => Option::None,
        Option::Some((n, j)) => {
            let nu = n as usize;
            if nu <= b.len() - j {
                let mut v: Vec<u8> = Vec::new();
                let mut k: usize = 0;
                while k < nu
                    invariant
                        spec_parse_u32(b@, i as int) == Option::Some((n, j as int)),
                        nu == n as nat,
                        j + nu <= b@.len(),
                        j + nu <= usize::MAX,
                        k <= nu,
                        v@ == b@.subrange(j as int, j + k),
                    decreases nu - k,
                {
                    v.push(b[j + k]);
                    assert(b@.subrange(j as int, j + k + 1) =~= b@.subrange(j as int, j + k).push(
                        b@[j + k]));
                    k += 1;
                }
                Option::Some((v, j + nu))
            } else {
                Option::None
            }
        },
    }
}

fn parse_opt_bytes(b: &Vec<u8>, i: usize) -> (r: Option<(Option<Vec<u8>>, usize)>)
    ensures
        (match r {
            Option::Some((o, j)) => spec_parse_opt_bytes(b@, i as int) == Option::Some(
                (opt_view(o), j as int)),
            Option::None => spec_parse_opt_bytes(b@, i as int) is None,
        }),
{
    if i < b.len() {
        let flag = b[i];
        if flag == 0 {
            Option::Some((Option::None, i + 1))
        } else if flag == 1 {
            match parse_bytes(b, i + 1) {
                Option::None => Option::None,
                Option::Some((v, j)) => Option::Some((Option::Some(v), j)),
            }
        } else {
            Option::None
        }
    } else {
        Option::None
    }
}

fn parse_tag_list(b: &Vec<u8>, i: usize) -> (r: Option<(Vec<Vec<u8>>, usize)>)
    ensures
        (match r {
            Option::Some((ts, j)) => spec_parse_tag_list(b@, i as int) == Option::Some(
                (views_of(ts@), j as int)),
            Option::None => spec_parse_tag_list(b@, i as int) is None,
        }),
{
    match parse_u32(b, i) {
        Option::None => Option::None,
        Option::Some((n, j0)) => {
            let mut acc: Vec<Vec<u8>> = Vec::new();
            let mut cur: usize = j0;
            let mut k: u32 = 0;
            assert(views_of(acc@) =~= Seq::<Seq<u8>>::empty());
            while k < n
                invariant
                    spec_parse_u32(b@, i as int) == Option::Some((n, j0 as int)),
                    k <= n,
                    (match spec_parse_list(b@, cur as int, (n - k) as nat) {
                        Option::None => spec_parse_list(b@, j0 as int, n as nat) is None,
                        Option::Some((ts, e)) => spec_parse_list(b@, j0 as int, n as nat)
                            == Option::Some((views_of(acc@) + ts, e)),
                    }),
                decreases n - k,
            {
                match parse_bytes(b, cur) {
                    Option::None => {
                        assert(spec_parse_list(b@, cur as int, (n - k) as nat) is None);
                        return Option::None;
                    },
                    Option::Some((v, j2)) => {
                        let ghost prev = acc@;
                        acc.push(v);
                        proof {
                            assert(views_of(acc@) =~= views_of(prev).push(v@));
                            match spec_parse_list(b@, j2 as int, (n - k - 1) as nat) {
                                Option::None => {
                                    assert(spec_parse_list(b@, cur as int, (n - k) as nat)
                                        is None);
                                },
                                Option::Some((ts2, e)) => {
                                    assert(spec_parse_list(b@, cur as int, (n - k) as nat)
                                        == Option::Some((seq![v@] + ts2, e)));
                                    assert(views_of(prev) + (seq![v@] + ts2) =~= views_of(acc@)
                                        + ts2);
                                },
                            }
                        }
                        cur = j2;
                        k = k + 1;
                    },
                }
            }
            assert(spec_parse_list(b@, cur as int, (n - k) as nat) == Option::Some(
                (Seq::<Seq<u8>>::empty(), cur as int)));
            assert(views_of(acc@) + Seq::<Seq<u8>>::empty() =~= views_of(acc@));
            Option::Some((acc, cur))
        },
    }
}

fn parse_opt_tag_list(b: &Vec<u8>, i: usize) -> (r: Option<(Option<Vec<Vec<u8>>>, usize)>)
    ensures
        (match r {
            Option::Some((o, j)) => spec_parse_opt_tag_list(b@, i as int) == Option::Some(
                (opt_list_view(o), j as int)),
            Option::None => spec_parse_opt_tag_list(b@, i as int) is None,
        }),
{
    if i < b.len() {
        let flag = b[i];
        if flag == 0 {
            Option::Some((Option::None, i + 1))
        } else if flag == 1 {
            match parse_tag_list(b, i + 1) {
                Option::None => Option::None,
                Option::Some((ts, j)) => Option::Some((Option::Some(ts), j)),
            }
        } else {
            Option::None
        }
    } else {
        Option::None
    }
}

fn parse_args(b: &Vec<u8>, i: usize) -> (r: Option<(CreateCollectionAccountArgs, usize)>)
    ensures
        (match r {
            Option::Some((a, j)) => spec_parse_args(b@, i as int) == Option::Some((a@, j as int)),
            Option::None => spec_parse_args(b@, i as int) is None,
        }),
{
    let (title, i1) = match parse_bytes(b, i) {
        Option::None => { return Option::None; },
        Option::Some(p) => p,
    };
    let (symbol, i2) = match parse_bytes(b, i1) {
        Option::None => { return Option::None; },
        Option::Some(p) => p,
    };
    let (description, i3) = match parse_bytes(b, i2) {
        Option::None => { return Option::None; },
        Option::Some(p) => p,
    };
    let (icon_image, i4) = match parse_bytes(b, i3) {
        Option::None => { return Option::None; },
        Option::Some(p) => p,
    };
    let (header_image, i5) = match parse_opt_bytes(b, i4) {
        Option::None => { return Option::None; },
        Option::Some(p) => p,
    };
    let (short_description, i6) = match parse_opt_bytes(b, i5) {
        Option::None => { return Option::None; },
        Option::Some(p) => p,
    };
    let (banner, i7) = match parse_opt_bytes(b, i6) {
        Option::None => { return Option::None; },
        Option::Some(p) => p,
    };
    let (tags, i8) = match parse_opt_tag_list(b, i7) {
        Option::None => { return Option::None; },
        Option::Some(p) => p,
    };
    let a = CreateCollectionAccountArgs {
        title,
        symbol,
        description,
        icon_image,
        header_image,
        short_description,
        banner,
        tags,
    };
    Option::Some((a, i8))
}

proof fn lemma_encode_shape(c: CommandView)
    ensures
        spec_encode(c).len() >= 1,
        spec_encode(c)[0] == tag_byte(c),
        tag_byte(c) <= 6,
{
    match c {
        CommandView::CreateCollectionAccount(a) => {
            assert((seq![0u8] + enc_args(a))[0] == 0u8);
        },
        _ => {},
    }
}

/// Turns a byte stream back into the one command that encodes to it, and
/// fails with `MalformedInstruction` on every other stream: an out-of-range
/// tag, a length prefix past the end of the buffer, or trailing bytes.
#[verifier::rlimit(100)]
pub fn decode(bytes: &Vec<u8>) -> (r: Result<CollectionInstruction, CollectionError>)
    ensures
        r matches Ok(c) ==> encodable(c@) && spec_encode(c@) == bytes@,
        forall|cv: CommandView| encodable(cv) && (#[trigger] spec_encode(cv)) == bytes@ ==> (
        r matches Ok(c) && c@ == cv),
        r is Err ==> r == Err::<CollectionInstruction, CollectionError>(
            CollectionError::MalformedInstruction,
        ),
{
    if bytes.len() == 0 {
        proof {
            assert forall|cv: CommandView|
                encodable(cv) && (#[trigger] spec_encode(cv)) == bytes@ implies false by {
                lemma_encode_shape(cv);
            }
        }
        return Err(CollectionError::MalformedInstruction);
    }
    let tag = bytes[0];
    if tag == 0 {
        match parse_args(bytes, 1) {
            Option::None => {
                proof {
                    assert forall|cv: CommandView|
                        encodable(cv) && (#[trigger] spec_encode(cv)) == bytes@ implies false by {
                        lemma_encode_shape(cv);
                        match cv {
                            CommandView::CreateCollectionAccount(av) => {
                                assert(prefix_at(bytes@, 1, enc_args(av))) by {
                                    assert(bytes@.subrange(1, 1 + enc_args(av).len() as int)
                                        =~= enc_args(av));
                                }
                                lemma_parse_args_complete(bytes@, 1, av);
                            },
                            _ => {},
                        }
                    }
                }
                Err(CollectionError::MalformedInstruction)
            },
            Option::Some((a, j)) => {
                if j == bytes.len() {
                    proof {
                        lemma_parse_args_sound(bytes@, 1, a@, j as int);
                        assert forall|k: int| 0 <= k < bytes@.len() implies bytes@[k] == (seq![
                            0u8,
                        ] + enc_args(a@))[k] by {
                            if k >= 1 {
                                assert(bytes@.subrange(1, 1 + enc_args(a@).len() as int)[k - 1]
                                    == bytes@[k]);
                            }
                        }
                        assert(bytes@ =~= seq![0u8] + enc_args(a@));
                        assert forall|cv: CommandView|
                            encodable(cv) && (#[trigger] spec_encode(cv)) == bytes@ implies cv
                            == CommandView::CreateCollectionAccount(a@) by {
                            lemma_encode_shape(cv);
                            match cv {
                                CommandView::CreateCollectionAccount(av) => {
                                    assert(prefix_at(bytes@, 1, enc_args(av))) by {
                                        assert(bytes@.subrange(1, 1 + enc_args(av).len() as int)
                                            =~= enc_args(av));
                                    }
                                    lemma_parse_args_complete(bytes@, 1, av);
                                },
                                _ => {},
                            }
                        }
                    }
                    Ok(CollectionInstruction::CreateCollectionAccount(a))
                } else {
                    proof {
                        lemma_parse_args_sound(bytes@, 1, a@, j as int);
                        assert forall|cv: CommandView|
                            encodable(cv) && (#[trigger] spec_encode(cv)) == bytes@ implies false by {
                            lemma_encode_shape(cv);
                            match cv {
                                CommandView::CreateCollectionAccount(av) => {
                                    assert(prefix_at(bytes@, 1, enc_args(av))) by {
                                        assert(bytes@.subrange(1, 1 + enc_args(av).len() as int)
                                            =~= enc_args(av));
                                    }
                                    lemma_parse_args_complete(bytes@, 1, av);
                                },
                                _ => {},
                            }
                        }
                    }
                    Err(CollectionError::MalformedInstruction)
                }
            },
        }
    } else if tag == 5 {
        if bytes.len() == 2 {
            let t = AccountType { ordinal: bytes[1] };
            proof {
                assert(spec_encode(CommandView::CloseAccount(t)) =~= bytes@);
                assert forall|cv: CommandView|
                    encodable(cv) && (#[trigger] spec_encode(cv)) == bytes@ implies cv
                    == CommandView::CloseAccount(t) by {
                    lemma_encode_shape(cv);
                    match cv {
                        CommandView::CloseAccount(t2) => {
                            assert(spec_encode(cv)[1] == t2.ordinal);
                        },
                        _ => {},
                    }
                }
            }
            Ok(CollectionInstruction::CloseAccount(t))
        } else {
            proof {
                assert forall|cv: CommandView|
                    encodable(cv) && (#[trigger] spec_encode(cv)) == bytes@ implies false by {
                    lemma_encode_shape(cv);
                    match cv {
                        CommandView::CloseAccount(t2) => {
                            assert(spec_encode(cv).len() == 2);
                        },
                        _ => {},
                    }
                }
            }
            Err(CollectionError::MalformedInstruction)
        }
    } else if tag <= 6 {
        let c = if tag == 1 {
            CollectionInstruction::IncludeToken
        } else if tag == 2 {
            CollectionInstruction::LightUpStarsOnce
        } else if tag == 3 {
            CollectionInstruction::LightUpStarsHundred
        } else if tag == 4 {
            CollectionInstruction::LightUpStarsThousand
        } else {
            CollectionInstruction::Withdraw
        };
        if bytes.len() == 1 {
            proof {
                assert(spec_encode(c@) =~= bytes@);
                assert forall|cv: CommandView|
                    encodable(cv) && (#[trigger] spec_encode(cv)) == bytes@ implies cv == c@ by {
                    lemma_encode_shape(cv);
                    lemma_encode_shape(c@);
                }
            }
            Ok(c)
        } else {
            proof {
                assert forall|cv: CommandView|
                    encodable(cv) && (#[trigger] spec_encode(cv)) == bytes@ implies false by {
                    lemma_encode_shape(cv);
                }
            }
            Err(CollectionError::MalformedInstruction)
        }
    } else {
        proof {
            assert forall|cv: CommandView|
                encodable(cv) && (#[trigger] spec_encode(cv)) == bytes@ implies false by {
                lemma_encode_shape(cv);
            }
        }
        Err(CollectionError::MalformedInstruction)
    }
}

/// No two distinct commands share an encoding, even when one encoding is
/// read as the start of a longer stream: the wire format is prefix-free.
pub proof fn lemma_encode_prefix_free(b: Seq<u8>, c1: CommandView, c2: CommandView)
    requires
        encodable(c1),
        encodable(c2),
        prefix_at(b, 0, spec_encode(c1)),
        prefix_at(b, 0, spec_encode(c2)),
    ensures
        c1 == c2,
{
    lemma_encode_shape(c1);
    lemma_encode_shape(c2);
    assert(b[0] == tag_byte(c1)) by {
        assert(b.subrange(0, spec_encode(c1).len() as int)[0] == spec_encode(c1)[0]);
    }
    assert(b[0] == tag_byte(c2)) by {
        assert(b.subrange(0, spec_encode(c2).len() as int)[0] == spec_encode(c2)[0]);
    }
    match c1 {
        CommandView::CreateCollectionAccount(a1) => {
            match c2 {
                CommandView::CreateCollectionAccount(a2) => {
                    lemma_prefix_split(b, 0, seq![0u8], enc_args(a1));
                    assert(prefix_at(b, 0, seq![0u8] + enc_args(a2)));
                    lemma_prefix_split(b, 0, seq![0u8], enc_args(a2));
                    lemma_parse_args_complete(b, 1, a1);
                    lemma_parse_args_complete(b, 1, a2);
                },
                _ => {},
            }
        },
        CommandView::CloseAccount(t1) => {
            match c2 {
                CommandView::CloseAccount(t2) => {
                    assert(b[1] == t1.ordinal) by {
                        assert(b.subrange(0, 2)[1] == spec_encode(c1)[1]);
                    }
                    assert(b[1] == t2.ordinal) by {
                        assert(b.subrange(0, 2)[1] == spec_encode(c2)[1]);
                    }
                },
                _ => {},
            }
        },
        _ => {
            assert(c1 == c2);
        },
    }
}

/// The encoding is injective: equal encodings come from equal commands.
/// Together with the contracts of `encode` and `decode` this yields the
/// round trip: decoding an encoded command gives the command back.
pub proof fn lemma_encode_injective(c1: CommandView, c2: CommandView)
    requires
        encodable(c1),
        encodable(c2),
        spec_encode(c1) == spec_encode(c2),
    ensures
        c1 == c2,
{
    let b = spec_encode(c1);
    assert(b.subrange(0, b.len() as int) =~= b);
    lemma_encode_prefix_free(b, c1, c2);
}

/// A buffer that is empty or starts with a tag byte above the variant range
/// is no encoding, so `decode` must reject it.
pub proof fn lemma_decode_rejects_bad_tag(b: Seq<u8>)
    requires
        b.len() == 0 || b[0] > 6,
    ensures
        forall|cv: CommandView| encodable(cv) ==> (#[trigger] spec_encode(cv)) != b,
{
    assert forall|cv: CommandView| encodable(cv) implies (#[trigger] spec_encode(cv)) != b by {
        lemma_encode_shape(cv);
    }
}

/// A buffer with trailing bytes after a complete encoding is no encoding,
/// so `decode` must reject it.
pub proof fn lemma_decode_rejects_trailing(c: CommandView, b: Seq<u8>)
    requires
        encodable(c),
        prefix_at(b, 0, spec_encode(c)),
        spec_encode(c).len() < b.len(),
    ensures
        forall|cv: CommandView| encodable(cv) ==> (#[trigger] spec_encode(cv)) != b,
{
    assert forall|cv: CommandView| encodable(cv) implies (#[trigger] spec_encode(cv)) != b by {
        if spec_encode(cv) == b {
            assert(b.subrange(0, b.len() as int) =~= b);
            lemma_encode_prefix_free(b, c, cv);
        }
    }
}

/// A strict prefix of an encoding, a truncated buffer, is no encoding, so
/// `decode` must reject it.
pub proof fn lemma_decode_rejects_truncation(c: CommandView, b: Seq<u8>)
    requires
        encodable(c),
        b.len() < spec_encode(c).len(),
        b == spec_encode(c).take(b.len() as int),
    ensures
        forall|cv: CommandView| encodable(cv) ==> (#[trigger] spec_encode(cv)) != b,
{
    let full = spec_encode(c);
    assert forall|cv: CommandView| encodable(cv) implies (#[trigger] spec_encode(cv)) != b by {
        if spec_encode(cv) == b {
            assert(full.subrange(0, full.len() as int) =~= full);
            assert(prefix_at(full, 0, spec_encode(cv)));
            lemma_encode_prefix_free(full, c, cv);
        }
    }
}

} // verus!
