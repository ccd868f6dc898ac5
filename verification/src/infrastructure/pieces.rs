//! From tokens to text, and from a prompt to a batch.

use vstd::prelude::*;
use vstd::utf8::{
    decode_utf8, decode_utf8_encode_utf8, encode_utf8, encode_utf8_decode_utf8,
    encode_utf8_valid_utf8, valid_utf8,
};

verus! {

// ---------------------------------------------------------------------------
// The text of a token
// ---------------------------------------------------------------------------

/// What the model says when it is asked for the bytes of a token.
pub enum PieceReply {
    /// The bytes.
    Bytes(Vec<u8>),
    /// The buffer was too small; the size that is needed, negated.
    TooSmall(i32),
    /// The token has no text.
    Failed,
}

/// What follows from the first reply.
pub enum PieceStep {
    /// The text of the token.
    Text(String),
    /// Ask once more, with a buffer of this size.
    Retry(usize),
}

/// The text that bytes hold; nothing where they are no UTF-8.
pub open spec fn bytes_text(bytes: Seq<u8>) -> Seq<char> {
    if valid_utf8(bytes) {
        decode_utf8(bytes)
    } else {
        Seq::empty()
    }
}

/// `String::from_utf8` of the standard library: the text that the bytes
/// encode, and nothing where they are not valid UTF-8.
#[verifier::external_body]
fn utf8_text(bytes: Vec<u8>) -> (r: Option<String>)
    ensures
        match r {
            Some(s) => valid_utf8(bytes@) && s@ == decode_utf8(bytes@),
            None => !valid_utf8(bytes@),
        },
{
    String::from_utf8(bytes).ok()
}

fn text_from(bytes: Vec<u8>) -> (s: String)
    ensures
        s@ == bytes_text(bytes@),
{
    match utf8_text(bytes) {
        Some(s) => s,
        None => String::new(),
    }
}

/// The text of a token, or how large a buffer it needs.
pub fn read_piece(reply: PieceReply) -> (step: PieceStep)
    requires
        reply matches PieceReply::TooSmall(n) ==> n > i32::MIN,
    ensures
        match reply {
            PieceReply::Bytes(b) => step matches PieceStep::Text(s) && s@ == bytes_text(b@),
            PieceReply::TooSmall(n) => step matches PieceStep::Retry(size) && size == (if n < 0 {
                -n
            } else {
                0
            }),
            PieceReply::Failed => step matches PieceStep::Text(s) && s@.len() == 0,
        },
{
    match reply {
        PieceReply::Bytes(b) => PieceStep::Text(text_from(b)),
        PieceReply::TooSmall(n) => {
            let size: usize = if n < 0 {
                (-n) as usize
            } else {
                0
            };
            PieceStep::Retry(size)
        },
        PieceReply::Failed => PieceStep::Text(String::new()),
    }
}

/// The text of a token after the second reply: only bytes give any.
pub fn read_retried_piece(reply: PieceReply) -> (s: String)
    ensures
        s@ == (match reply {
            PieceReply::Bytes(b) => bytes_text(b@),
            _ => Seq::empty(),
        }),
{
    match reply {
        PieceReply::Bytes(b) => text_from(b),
        _ => String::new(),
    }
}

/// Pieces of text, one after the other.
pub open spec fn joined(pieces: Seq<Seq<char>>) -> Seq<char>
    decreases pieces.len(),
{
    if pieces.len() == 0 {
        Seq::empty()
    } else {
        joined(pieces.drop_last()) + pieces.last()
    }
}

/// Pieces of text as one text.
pub fn join_pieces(pieces: &Vec<String>) -> (s: String)
    ensures
        s@ == joined(crate::text::texts_of(pieces@)),
{
    let mut out = String::new();
    let ghost all = crate::text::texts_of(pieces@);
    for i in 0..pieces.len()
        invariant
            all == crate::text::texts_of(pieces@),
            out@ == joined(all.take(i as int)),
    {
        out.append(pieces[i].as_str());
        assert(all.take(i + 1).drop_last() =~= all.take(i as int));
    }
    assert(all.take(pieces@.len() as int) =~= all);
    out
}

// ---------------------------------------------------------------------------
// The batch of a prompt
// ---------------------------------------------------------------------------

/// A token of a batch: where it stands, and whether the model is asked what
/// comes after it.
#[derive(Debug, Clone, Copy, PartialEq, Eq, Structural)]
pub struct BatchEntry {
    pub token: i32,
    pub pos: i32,
    pub logits: bool,
}

/// The batch that feeds a prompt: every token at its own position, and the
/// model is asked what comes after the last one alone.
pub open spec fn prompt_batch(tokens: Seq<i32>) -> Seq<BatchEntry> {
    Seq::new(
        tokens.len(),
        |i: int|
            BatchEntry { token: tokens[i], pos: i as i32, logits: i == tokens.len() - 1 },
    )
}

/// The batch that feeds a prompt.
pub fn prefill_batch(tokens: &[i32]) -> (batch: Vec<BatchEntry>)
    requires
        tokens@.len() <= 0x8000_0000,
    ensures
        batch@ == prompt_batch(tokens@),
{
    let mut batch: Vec<BatchEntry> = Vec::new();
    let end: usize = tokens.len();
    for i in 0..end
        invariant
            end == tokens@.len() <= 0x8000_0000,
            batch@ == prompt_batch(tokens@).take(i as int),
    {
        batch.push(BatchEntry { token: tokens[i], pos: i as i32, logits: i == end - 1 });
        assert(prompt_batch(tokens@).take(i + 1) =~= prompt_batch(tokens@).take(i as int).push(
            prompt_batch(tokens@)[i as int],
        ));
    }
    assert(prompt_batch(tokens@).take(end as int) =~= prompt_batch(tokens@));
    batch
}

/// The batch of a prompt holds its tokens in their order, the first at position
/// zero and each at the position after the one before; the model is asked what
/// comes after exactly one of them, the last.
pub proof fn law_batch_feeds_prompt(tokens: Seq<i32>)
    requires
        tokens.len() <= 0x8000_0000,
    ensures
        ({
            let batch = prompt_batch(tokens);
            &&& batch.len() == tokens.len()
            &&& forall|i: int| 0 <= i < tokens.len() ==> (#[trigger] batch[i]).token == tokens[i]
            &&& tokens.len() > 0 ==> batch[0].pos == 0 && batch.last().logits
            &&& forall|i: int, j: int|
                0 <= i < j < batch.len() ==> (#[trigger] batch[j]).pos - (#[trigger] batch[i]).pos == j
                    - i && !batch[i].logits
        }),
{
}

/// Pieces are joined in their order: the text of some pieces and then others is
/// the text of the first and then the text of the others.
pub proof fn law_pieces_are_joined_in_order(a: Seq<Seq<char>>, piece: Seq<char>, b: Seq<Seq<char>>)
    ensures
        joined(seq![piece]) == piece,
        joined(a + b) == joined(a) + joined(b),
    decreases b.len(),
{
    assert(seq![piece].drop_last() =~= Seq::<Seq<char>>::empty());
    assert(joined(Seq::<Seq<char>>::empty()) + piece =~= piece);
    if b.len() == 0 {
        assert(a + b =~= a);
        assert(joined(a) + joined(b) =~= joined(a));
    } else {
        assert((a + b).drop_last() =~= a + b.drop_last());
        law_pieces_are_joined_in_order(a, piece, b.drop_last());
        assert(joined(a) + (joined(b.drop_last()) + b.last()) =~= joined(a) + joined(b.drop_last())
            + b.last());
    }
}

/// The bytes of a text give the text back, and bytes that are no text give
/// nothing.
pub proof fn law_bytes_give_text_back(text: Seq<char>, bytes: Seq<u8>)
    ensures
        bytes_text(encode_utf8(text)) == text,
        !valid_utf8(bytes) ==> bytes_text(bytes).len() == 0,
        valid_utf8(bytes) ==> encode_utf8(bytes_text(bytes)) == bytes,
{
    encode_utf8_valid_utf8(text);
    encode_utf8_decode_utf8(text);
    if valid_utf8(bytes) {
        decode_utf8_encode_utf8(bytes);
    }
}

} // verus!
