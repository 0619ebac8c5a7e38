//! Splitting document text into trimmed, bounded chunks.
use vstd::prelude::*;

verus! {

/// Largest number of characters in one chunk of a document.
pub const CHUNK_CAPACITY: usize = 500;

/// Unicode `White_Space`, the set that `char::is_whitespace` and `str::trim` use.
pub open spec fn is_white_space(c: char) -> bool {
    ('\u{9}' <= c && c <= '\u{d}') || c == ' ' || c == '\u{85}' || c == '\u{a0}'
        || c == '\u{1680}' || ('\u{2000}' <= c && c <= '\u{200a}') || c == '\u{2028}'
        || c == '\u{2029}' || c == '\u{202f}' || c == '\u{205f}' || c == '\u{3000}'
}

/// Every character of `s` is white space (also true of the empty text).
pub open spec fn is_blank(s: Seq<char>) -> bool {
    forall|i: int| 0 <= i < s.len() ==> is_white_space(#[trigger] s[i])
}

/// `s` is not empty and neither starts nor ends with white space.
pub open spec fn is_trimmed(s: Seq<char>) -> bool {
    s.len() > 0 && !is_white_space(s[0]) && !is_white_space(s[s.len() - 1])
}

/// `text` is the chunks in order, with only white space before, between and
/// after them.
pub open spec fn pieces_cover(text: Seq<char>, chunks: Seq<Seq<char>>) -> bool
    decreases chunks.len(),
{
    if chunks.len() == 0 {
        is_blank(text)
    } else {
        exists|k: int|
            0 <= k && k + chunks[0].len() <= text.len() && is_blank(#[trigger] text.take(k))
                && text.subrange(k, k + chunks[0].len()) == chunks[0] && pieces_cover(
                text.skip(k + chunks[0].len()),
                chunks.drop_first(),
            )
    }
}

/// The characters of each string, in order.
pub open spec fn texts_of(v: Seq<String>) -> Seq<Seq<char>> {
    v.map_values(|s: String| s@)
}

/// What the text splitter, counting characters and trimming, makes of `text`
/// with room for `capacity` characters per chunk.
pub uninterp spec fn split_of(text: Seq<char>, capacity: nat) -> Seq<Seq<char>>;

/// Relies on `text_splitter::TextSplitter::chunks` (character sizing, trimming
/// on): the chunks are the pieces of the text in order, each trimmed, empty ones
/// left out, none longer than the capacity.
#[verifier::external_body]
fn split_text(text: &str, capacity: usize) -> (r: Vec<String>)
    requires
        capacity >= 1,
    ensures
        texts_of(r@) == split_of(text@, capacity as nat),
        pieces_cover(text@, texts_of(r@)),
        forall|i: int| 0 <= i < r@.len() ==> is_trimmed(#[trigger] r@[i]@),
        forall|i: int| 0 <= i < r@.len() ==> (#[trigger] r@[i]@).len() <= capacity,
{
    let splitter = text_splitter::TextSplitter::default().with_trim_chunks(true);
    splitter.chunks(text, capacity).map(|c| c.to_string()).collect()
}

/// Splits `text` into chunks of at most `capacity` characters, preferring
/// natural breaks; the result depends on `text` and `capacity` alone.
pub fn chunk_text(text: &str, capacity: usize) -> (r: Vec<String>)
    requires
        capacity >= 1,
    ensures
        texts_of(r@) == split_of(text@, capacity as nat),
        pieces_cover(text@, texts_of(r@)),
        forall|i: int| 0 <= i < r@.len() ==> is_trimmed(#[trigger] r@[i]@),
        forall|i: int| 0 <= i < r@.len() ==> (#[trigger] r@[i]@).len() <= capacity,
        is_blank(text@) ==> r@.len() == 0,
{
    let r = split_text(text, capacity);
    proof {
        if is_blank(text@) {
            lemma_blank_text_has_no_chunks(text@, texts_of(r@));
        }
    }
    r
}

/// Splits a document into chunks of at most `CHUNK_CAPACITY` characters.
pub fn chunk_document(content: &str) -> (r: Vec<String>)
    ensures
        texts_of(r@) == split_of(content@, CHUNK_CAPACITY as nat),
        pieces_cover(content@, texts_of(r@)),
        forall|i: int| 0 <= i < r@.len() ==> is_trimmed(#[trigger] r@[i]@),
        forall|i: int| 0 <= i < r@.len() ==> (#[trigger] r@[i]@).len() <= CHUNK_CAPACITY,
        is_blank(content@) ==> r@.len() == 0,
{
    chunk_text(content, CHUNK_CAPACITY)
}

/// Splitting is a function of the text and the capacity: two splits of the same
/// text with the same capacity give the same chunks in the same order.
pub proof fn lemma_split_deterministic(
    text: Seq<char>,
    capacity: nat,
    first: Seq<Seq<char>>,
    second: Seq<Seq<char>>,
)
    requires
        first == split_of(text, capacity),
        second == split_of(text, capacity),
    ensures
        first == second,
{
}

/// Blank text has no chunks.
pub proof fn lemma_blank_text_has_no_chunks(text: Seq<char>, chunks: Seq<Seq<char>>)
    requires
        is_blank(text),
        pieces_cover(text, chunks),
        forall|i: int| 0 <= i < chunks.len() ==> is_trimmed(#[trigger] chunks[i]),
    ensures
        chunks.len() == 0,
{
    if chunks.len() > 0 {
        let k = choose|k: int|
            0 <= k && k + chunks[0].len() <= text.len() && is_blank(#[trigger] text.take(k))
                && text.subrange(k, k + chunks[0].len()) == chunks[0] && pieces_cover(
                text.skip(k + chunks[0].len()),
                chunks.drop_first(),
            );
        assert(is_trimmed(chunks[0]));
        assert(chunks[0][0] == text[k]);
    }
}

} // verus!
