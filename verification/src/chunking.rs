//! Markdown-aware chunking of content for embedding generation.

use vstd::prelude::*;
use crate::markdown::{blocks_view, markdown_blocks, parse_markdown_blocks, BlockType, MarkdownBlock};
use crate::text::{byte_len, chars_of, lemma_byte_len_ge_len, push_char, push_str, string_from_chars};
use crate::tokenizer::{cl100k_text, cl100k_tokens, decode_cl100k, encode_cl100k};

verus! {

/// Chunk size the merging aims for, in tokens.
pub const TARGET_CHUNK_TOKENS: usize = 2500;

/// Tokens of the next chunk appended to each chunk.
pub const OVERLAP_TOKENS: usize = 200;

/// Chunks below this many tokens are merged with a neighbour.
pub const MIN_CHUNK_TOKENS: usize = 100;

/// No chunk made of text outside code blocks passes this many tokens.
pub const MAX_CHUNK_TOKENS: usize = 3000;

/// Characters per piece when a piece of an oversized block passes the
/// maximum: a quarter of the maximum, since a character is at most four
/// bytes and a token at least one.
pub const OVERSIZE_PIECE_CHARS: usize = 750;

/// The strings held by a vector.
pub open spec fn strings_view(v: Seq<String>) -> Seq<Seq<char>> {
    v.map_values(|s: String| s@)
}

pub proof fn lemma_strings_view_push(v: Seq<String>, x: String)
    ensures
        strings_view(v.push(x)) == strings_view(v).push(x@),
{
    assert(strings_view(v.push(x)) =~= strings_view(v).push(x@));
}

/// The separator placed between merged pieces.
pub open spec fn blank_line() -> Seq<char> {
    seq!['\n', '\n']
}

/// `a`, a blank line, then `b` (`format!("{}\n\n{}", a, b)`).
pub open spec fn joined(a: Seq<char>, b: Seq<char>) -> Seq<char> {
    a + blank_line() + b
}

/// Number of cl100k_base tokens of a text; where the tokenizer reports an
/// error on the text, its number of characters stands in for it.
pub open spec fn token_count(text: Seq<char>) -> nat {
    match cl100k_tokens(text) {
        Some(t) => t.len(),
        None => text.len(),
    }
}

/// Counts tokens with tiktoken's cl100k_base encoding (the encoding of
/// OpenAI's embedding models); a text the tokenizer fails on counts its
/// characters. Never more than the text's UTF-8 bytes.
pub fn count_tokens(text: &str) -> (n: usize)
    ensures
        n == token_count(text@),
        n <= byte_len(text@),
{
    match encode_cl100k(text) {
        Some(t) => t.len(),
        None => {
            proof {
                lemma_byte_len_ge_len(text@);
            }
            chars_of(text).len()
        },
    }
}

/// The first `4 * n` characters of a text (all of them if fewer).
pub open spec fn char_prefix(text: Seq<char>, n: nat) -> Seq<char> {
    text.take(if 4 * n < text.len() {
        (4 * n) as int
    } else {
        text.len() as int
    })
}

/// The first `n` tokens of `text` decoded back to a string; where the text
/// cannot be encoded or those tokens cannot be decoded, the first `4 * n`
/// characters of `text` instead.
pub open spec fn first_n_tokens(text: Seq<char>, n: nat) -> Seq<char> {
    match cl100k_tokens(text) {
        Some(t) => {
            let take = if t.len() < n {
                t.len()
            } else {
                n
            };
            match cl100k_text(t.subrange(0, take as int)) {
                Some(s) => s,
                None => char_prefix(text, n),
            }
        },
        None => char_prefix(text, n),
    }
}

fn char_prefix_exec(text: &str, n: usize) -> (r: String)
    ensures
        r@ == char_prefix(text@, n as nat),
{
    let chars = chars_of(text);
    let limit = if n <= chars.len() / 4 {
        4 * n
    } else {
        chars.len()
    };
    string_from_chars(&chars.as_slice()[0..limit])
}

/// Gets the first `n` tokens of a text as a string.
pub fn get_first_n_tokens(text: &str, n: usize) -> (r: String)
    ensures
        r@ == first_n_tokens(text@, n as nat),
{
    match encode_cl100k(text) {
        Some(tokens) => {
            let mut tokens = tokens;
            let ghost t = tokens@;
            let take = if tokens.len() < n {
                tokens.len()
            } else {
                n
            };
            tokens.truncate(take);
            assert(tokens@ =~= t.subrange(0, take as int));
            match decode_cl100k(tokens.as_slice()) {
                Some(s) => s,
                None => char_prefix_exec(text, n),
            }
        },
        None => char_prefix_exec(text, n),
    }
}

/// A text cut into consecutive pieces of `k` characters (the last one may
/// be shorter).
pub open spec fn char_windows(s: Seq<char>, k: nat) -> Seq<Seq<char>>
    decreases s.len(),
{
    if s.len() <= k || k == 0 {
        seq![s]
    } else {
        seq![s.take(k as int)] + char_windows(s.skip(k as int), k)
    }
}

/// Cuts a text into consecutive pieces of `k` characters.
pub fn split_by_chars(text: &str, k: usize) -> (pieces: Vec<String>)
    requires
        k > 0,
    ensures
        strings_view(pieces@) == char_windows(text@, k as nat),
        forall|i: int| 0 <= i < pieces@.len() ==> (#[trigger] pieces@[i])@.len() <= k,
{
    let cs = chars_of(text);
    let mut pieces: Vec<String> = Vec::new();
    let mut start: usize = 0;
    assert(cs@.skip(0) =~= cs@);
    while cs.len() - start > k
        invariant
            start <= cs.len(),
            k > 0,
            cs@ == text@,
            strings_view(pieces@) + char_windows(cs@.skip(start as int), k as nat) == char_windows(
                text@,
                k as nat,
            ),
            forall|i: int| 0 <= i < pieces@.len() ==> (#[trigger] pieces@[i])@.len() <= k,
        decreases cs.len() - start,
    {
        let ghost rest = cs@.skip(start as int);
        let piece = string_from_chars(&cs.as_slice()[start..start + k]);
        assert(piece@ =~= rest.take(k as int));
        assert(rest.skip(k as int) =~= cs@.skip(start + k));
        let ghost before = strings_view(pieces@);
        pieces.push(piece);
        assert(strings_view(pieces@) =~= before.push(piece@));
        start = start + k;
        assert(strings_view(pieces@) + char_windows(cs@.skip(start as int), k as nat) =~= before
            + char_windows(rest, k as nat));
    }
    let last = string_from_chars(&cs.as_slice()[start..cs.len()]);
    assert(last@ =~= cs@.skip(start as int));
    let ghost before = strings_view(pieces@);
    pieces.push(last);
    assert(strings_view(pieces@) =~= before + seq![last@]);
    pieces
}

// ---------------------------------------------------------------------------
// Sentence splitting
// ---------------------------------------------------------------------------

/// A character that ends a sentence.
pub open spec fn is_sentence_punct(c: char) -> bool {
    c == '.' || c == '!' || c == '?'
}

/// A character that may follow sentence punctuation at a boundary.
pub open spec fn is_sentence_gap(c: char) -> bool {
    c == ' ' || c == '\n'
}

/// End of the sentence that starts at `i`: just after the first `. `, `! `,
/// `? `, `.\n`, `!\n` or `?\n` at or after `i`, or the end of the text.
pub open spec fn sentence_end(s: Seq<char>, i: int) -> int
    decreases s.len() - i,
{
    if 0 <= i && i + 1 < s.len() {
        if is_sentence_punct(s[i]) && is_sentence_gap(s[i + 1]) {
            i + 2
        } else {
            sentence_end(s, i + 1)
        }
    } else {
        s.len() as int
    }
}

pub proof fn lemma_sentence_end_bounds(s: Seq<char>, i: int)
    requires
        0 <= i < s.len(),
    ensures
        i < sentence_end(s, i) <= s.len(),
    decreases s.len() - i,
{
    if i + 1 < s.len() && !(is_sentence_punct(s[i]) && is_sentence_gap(s[i + 1])) {
        lemma_sentence_end_bounds(s, i + 1);
    }
}

/// A sentence never runs past a `.`, `!` or `?` that is followed by a space
/// or a newline: from any start at or before such a mark, the sentence ends
/// at the latest just after the space or newline. And a sentence that ends
/// before the text does ends exactly on such a pair.
pub proof fn sentence_ends_at_punctuation(s: Seq<char>, i: int, j: int)
    requires
        0 <= i <= j,
        j + 1 < s.len(),
        s[j] == '.' || s[j] == '!' || s[j] == '?',
        s[j + 1] == ' ' || s[j + 1] == '\n',
    ensures
        sentence_end(s, i) <= j + 2,
    decreases j - i,
{
    if i < j && !(is_sentence_punct(s[i]) && is_sentence_gap(s[i + 1])) {
        sentence_ends_at_punctuation(s, i + 1, j);
    }
}

/// Where a sentence ends before the end of the text, its last two
/// characters are a `.`, `!` or `?` and a space or newline.
pub proof fn sentence_ends_on_a_boundary(s: Seq<char>, i: int)
    requires
        0 <= i < s.len(),
    ensures
        sentence_end(s, i) < s.len() ==> {
            let e = sentence_end(s, i);
            &&& (s[e - 2] == '.' || s[e - 2] == '!' || s[e - 2] == '?')
            &&& (s[e - 1] == ' ' || s[e - 1] == '\n')
        },
    decreases s.len() - i,
{
    if i + 1 < s.len() && !(is_sentence_punct(s[i]) && is_sentence_gap(s[i + 1])) {
        sentence_ends_on_a_boundary(s, i + 1);
    }
}

/// The pieces of a text that is too large for `max` tokens: consecutive
/// windows of `max` tokens, each decoded; windows that do not decode are
/// dropped.
pub open spec fn decoded_windows(t: Seq<u32>, start: int, max: nat) -> Seq<Seq<char>>
    decreases t.len() - start,
{
    if 0 <= start < t.len() && max > 0 {
        let end = if start + max < t.len() {
            start + max
        } else {
            t.len() as int
        };
        let piece = match cl100k_text(t.subrange(start, end)) {
            Some(x) => seq![x],
            None => Seq::empty(),
        };
        piece + decoded_windows(t, end, max)
    } else {
        Seq::empty()
    }
}

/// Characters per piece when a text the tokenizer fails on is cut for a
/// limit of `max` tokens: a quarter of the limit (a character is at most
/// four bytes), at least one.
pub open spec fn fallback_width(max: nat) -> nat {
    if max >= 4 {
        max / 4
    } else {
        1
    }
}

/// A text split by token count: the text itself if it fits in `max` tokens,
/// else its decoded windows of `max` tokens (windows that do not decode are
/// dropped). A text the tokenizer fails on is measured by its characters and
/// cut into pieces of `fallback_width(max)` characters.
pub open spec fn hard_split(text: Seq<char>, max: nat) -> Seq<Seq<char>> {
    match cl100k_tokens(text) {
        Some(t) => if t.len() <= max {
            seq![text]
        } else {
            decoded_windows(t, 0, max)
        },
        None => if text.len() <= max {
            seq![text]
        } else {
            char_windows(text, fallback_width(max))
        },
    }
}

/// Splits text by token count (last resort for a sentence over the limit).
/// A limit of 0 is admitted for the empty text only, which comes back as it
/// is.
pub fn hard_split_by_tokens(text: &str, max_tokens: usize) -> (chunks: Vec<String>)
    requires
        max_tokens > 0 || text@.len() == 0,
    ensures
        strings_view(chunks@) == hard_split(text@, max_tokens as nat),
{
    let encoded = encode_cl100k(text);
    let tokens = match encoded {
        Some(t) => t,
        None => {
            let cs = chars_of(text);
            if cs.len() <= max_tokens {
                let mut one: Vec<String> = Vec::new();
                one.push(string_from_chars(cs.as_slice()));
                assert(strings_view(one@) =~= seq![text@]);
                return one;
            }
            let width = if max_tokens >= 4 {
                max_tokens / 4
            } else {
                1
            };
            return split_by_chars(text, width);
        },
    };
    if tokens.len() <= max_tokens {
        let mut one: Vec<String> = Vec::new();
        one.push(string_from_chars(chars_of(text).as_slice()));
        assert(strings_view(one@) =~= seq![text@]);
        return one;
    }
    proof {
        if max_tokens == 0 {
            assert(byte_len(text@) == 0) by {
                reveal_with_fuel(byte_len, 1);
            }
        }
    }
    let ghost t = tokens@;
    let mut chunks: Vec<String> = Vec::new();
    let mut start: usize = 0;
    while start < tokens.len()
        invariant
            start <= tokens.len(),
            t == tokens@,
            cl100k_tokens(text@) == Some(t),
            max_tokens > 0,
            tokens.len() > max_tokens,
            strings_view(chunks@) + decoded_windows(t, start as int, max_tokens as nat)
                == decoded_windows(t, 0, max_tokens as nat),
        decreases tokens.len() - start,
    {
        let end = if start < tokens.len() - max_tokens {
            start + max_tokens
        } else {
            tokens.len()
        };
        let window = &tokens.as_slice()[start..end];
        assert(window@ =~= t.subrange(start as int, end as int));
        let ghost old_chunks = chunks@;
        match decode_cl100k(window) {
            Some(piece) => {
                chunks.push(piece);
                assert(strings_view(chunks@) =~= strings_view(old_chunks) + seq![
                    chunks@.last()@]);
            },
            None => {},
        }
        assert(strings_view(chunks@) + decoded_windows(t, end as int, max_tokens as nat)
            =~= strings_view(old_chunks) + decoded_windows(t, start as int, max_tokens as nat));
        start = end;
    }
    assert(decoded_windows(t, start as int, max_tokens as nat) =~= Seq::<Seq<char>>::empty());
    assert(strings_view(chunks@) =~= strings_view(chunks@) + decoded_windows(
        t,
        start as int,
        max_tokens as nat,
    ));
    chunks
}

/// State of sentence accumulation: finished chunks, the chunk being filled,
/// and its token count.
pub type SplitState = (Seq<Seq<char>>, Seq<char>, nat);

/// A state with its open chunk, if non-empty, moved to the finished chunks.
pub open spec fn flush(st: SplitState) -> SplitState {
    if st.1.len() > 0 {
        (st.0.push(st.1), Seq::<char>::empty(), 0nat)
    } else {
        st
    }
}

/// One sentence added: a chunk that would pass `max` tokens is closed first;
/// a sentence over `max` tokens on its own is hard split into chunks of its
/// own; any other sentence is appended to the open chunk.
pub open spec fn sentence_step(st: SplitState, sentence: Seq<char>, max: nat) -> SplitState {
    let n = token_count(sentence);
    let st1 = if st.2 + n > max && st.1.len() > 0 {
        (st.0.push(st.1), Seq::<char>::empty(), 0nat)
    } else {
        st
    };
    if n > max {
        let st2 = flush(st1);
        (st2.0 + hard_split(sentence, max), st2.1, st2.2)
    } else {
        (st1.0, st1.1 + sentence, st1.2 + n)
    }
}

/// The chunks of a sentence-by-sentence split of `s[p..]`, continuing from
/// state `st`.
pub open spec fn sentence_split_from(s: Seq<char>, p: int, max: nat, st: SplitState) -> Seq<
    Seq<char>,
>
    decreases s.len() - p,
{
    if 0 <= p < s.len() {
        let e = sentence_end(s, p);
        proof {
            lemma_sentence_end_bounds(s, p);
        }
        sentence_split_from(s, e, max, sentence_step(st, s.subrange(p, e), max))
    } else if st.1.len() > 0 {
        st.0.push(st.1)
    } else {
        st.0
    }
}

/// Sentence-by-sentence split of a block into chunks of at most `max` tokens
/// of summed sentence counts.
pub open spec fn sentence_split(s: Seq<char>, max: nat) -> Seq<Seq<char>> {
    sentence_split_from(s, 0, max, (Seq::empty(), Seq::empty(), 0))
}

/// Splits a block by sentences so that each chunk stays within the token
/// limit.
pub fn split_block_by_sentences(content: &str, max_tokens: usize) -> (chunks: Vec<String>)
    requires
        max_tokens > 0 || content@.len() == 0,
    ensures
        strings_view(chunks@) == sentence_split(content@, max_tokens as nat),
{
    let s = chars_of(content);
    let ghost max = max_tokens as nat;
    let mut chunks: Vec<String> = Vec::new();
    let mut current: Vec<char> = Vec::new();
    let mut current_tokens: usize = 0;
    let mut p: usize = 0;
    assert(strings_view(chunks@) =~= Seq::<Seq<char>>::empty());
    assert(current@ =~= Seq::<char>::empty());
    while p < s.len()
        invariant
            p <= s.len(),
            s@ == content@,
            max_tokens > 0 || s@.len() == 0,
            max == max_tokens as nat,
            current_tokens <= max_tokens,
            current@.len() == 0 ==> current_tokens == 0,
            sentence_split_from(
                s@,
                p as int,
                max,
                (strings_view(chunks@), current@, current_tokens as nat),
            ) == sentence_split(content@, max),
        decreases s.len() - p,
    {
        // find the end of the sentence
        let mut e: usize = p;
        while e < s.len() && e + 1 < s.len() && !((s[e] == '.' || s[e] == '!' || s[e] == '?')
            && (s[e + 1] == ' ' || s[e + 1] == '\n'))
            invariant
                p <= e <= s.len(),
                sentence_end(s@, p as int) == sentence_end(s@, e as int),
            decreases s.len() - e,
        {
            e = e + 1;
        }
        let end = if e < s.len() && e + 1 < s.len() {
            e + 2
        } else {
            s.len()
        };
        assert(end == sentence_end(s@, p as int));
        proof {
            lemma_sentence_end_bounds(s@, p as int);
        }
        let ghost st = (strings_view(chunks@), current@, current_tokens as nat);
        let sentence_chars = &s.as_slice()[p..end];
        let sentence = string_from_chars(sentence_chars);
        assert(sentence@ == s@.subrange(p as int, end as int));
        let sentence_tokens = count_tokens(sentence.as_str());
        if sentence_tokens > max_tokens - current_tokens && current.len() > 0 {
            chunks.push(string_from_chars(current.as_slice()));
            current = Vec::new();
            current_tokens = 0;
        }
        if sentence_tokens > max_tokens {
            if current.len() > 0 {
                chunks.push(string_from_chars(current.as_slice()));
                current = Vec::new();
                current_tokens = 0;
            }
            let hard = hard_split_by_tokens(sentence.as_str(), max_tokens);
            let mut h: usize = 0;
            let ghost base = strings_view(chunks@);
            while h < hard.len()
                invariant
                    h <= hard.len(),
                    strings_view(chunks@) == base + strings_view(hard@).take(h as int),
                decreases hard.len() - h,
            {
                let ghost before = strings_view(chunks@);
                let piece = hard[h].clone();
                assert(piece@ == strings_view(hard@)[h as int]);
                chunks.push(piece);
                assert(strings_view(hard@).take(h + 1) =~= strings_view(hard@).take(h as int).push(
                    piece@,
                ));
                assert(strings_view(chunks@) =~= before.push(piece@));
                h = h + 1;
                assert(strings_view(chunks@) =~= base + strings_view(hard@).take(h as int));
            }
            assert(strings_view(hard@).take(h as int) =~= strings_view(hard@));
        } else {
            current.extend_from_slice(sentence_chars);
            current_tokens = current_tokens + sentence_tokens;
        }
        assert((strings_view(chunks@), current@, current_tokens as nat) == sentence_step(
            st,
            s@.subrange(p as int, end as int),
            max,
        ));
        p = end;
    }
    if current.len() > 0 {
        chunks.push(string_from_chars(current.as_slice()));
    }
    assert(strings_view(chunks@) == sentence_split(content@, max));
    chunks
}


// ---------------------------------------------------------------------------
// Merging blocks into chunks
// ---------------------------------------------------------------------------

/// The finished chunks of a state, with its open chunk closed if non-empty.
pub open spec fn flushed(st: SplitState) -> Seq<Seq<char>> {
    if st.1.len() > 0 {
        st.0.push(st.1)
    } else {
        st.0
    }
}

/// One piece of an oversized block added. A piece that passes the maximum
/// closes the open chunk and is cut into chunks of `OVERSIZE_PIECE_CHARS`
/// characters. Otherwise the first piece, or one whose count would take the
/// open chunk's summed count past the target (or whose addition would take
/// the open chunk's text past the maximum), opens a new chunk; others are
/// appended directly and their counts summed.
pub open spec fn piece_step(st: SplitState, piece: Seq<char>, first: bool) -> SplitState {
    let n = token_count(piece);
    if n > MAX_CHUNK_TOKENS {
        (flushed(st) + char_windows(piece, OVERSIZE_PIECE_CHARS as nat), Seq::empty(), 0nat)
    } else if first || st.2 + n > TARGET_CHUNK_TOKENS || token_count(st.1 + piece)
        > MAX_CHUNK_TOKENS {
        (flushed(st), piece, n)
    } else {
        (st.0, st.1 + piece, st.2 + n)
    }
}

/// The pieces `ps[k..]` added in turn to state `st`.
pub open spec fn pieces_from(ps: Seq<Seq<char>>, k: int, st: SplitState) -> SplitState
    decreases ps.len() - k,
{
    if 0 <= k < ps.len() {
        pieces_from(ps, k + 1, piece_step(st, ps[k], k == 0))
    } else {
        st
    }
}

/// One markdown block added to the chunk being built. A code block closes
/// the open chunk and is never split: above the target it is a chunk of its
/// own, otherwise it opens the next chunk. A header closes an open chunk
/// that has reached the minimum. Other blocks join the open chunk (after a
/// blank line) while the summed block counts stay within the target (and
/// the joined text within the maximum); a block above the target is split
/// by sentences; otherwise the block opens a new chunk.
pub open spec fn block_step(st: SplitState, b: (BlockType, Seq<char>)) -> SplitState {
    let c = b.1;
    let n = token_count(c);
    if b.0 == BlockType::CodeBlock {
        let st1 = flush(st);
        if n > TARGET_CHUNK_TOKENS {
            (st1.0.push(c), st1.1, st1.2)
        } else {
            (st1.0, c, n)
        }
    } else {
        let st1 = if b.0 == BlockType::Header && st.1.len() > 0 && st.2 >= MIN_CHUNK_TOKENS {
            flush(st)
        } else {
            st
        };
        let cand = if st1.1.len() > 0 {
            joined(st1.1, c)
        } else {
            c
        };
        if st1.2 + n <= TARGET_CHUNK_TOKENS && token_count(cand) <= MAX_CHUNK_TOKENS {
            (st1.0, cand, st1.2 + n)
        } else if n > TARGET_CHUNK_TOKENS {
            pieces_from(sentence_split(c, TARGET_CHUNK_TOKENS as nat), 0, flush(st1))
        } else {
            (flushed(st1), c, n)
        }
    }
}

/// The blocks `bs[k..]` added in turn to state `st`.
pub open spec fn blocks_fold(bs: Seq<(BlockType, Seq<char>)>, k: int, st: SplitState) -> SplitState
    decreases bs.len() - k,
{
    if 0 <= k < bs.len() {
        blocks_fold(bs, k + 1, block_step(st, bs[k]))
    } else {
        st
    }
}

/// Chunks made by merging adjacent blocks within the token limits.
pub open spec fn merged_blocks(bs: Seq<(BlockType, Seq<char>)>) -> Seq<Seq<char>> {
    flushed(blocks_fold(bs, 0, (Seq::empty(), Seq::empty(), 0)))
}

fn push_blank_line(s: &mut String)
    ensures
        final(s)@ == old(s)@ + blank_line(),
{
    push_char(s, '\n');
    push_char(s, '\n');
    assert(s@ =~= old(s)@ + blank_line());
}

fn push_chunk(chunks: &mut Vec<String>, c: String)
    ensures
        final(chunks)@ == old(chunks)@.push(c),
        strings_view(final(chunks)@) == strings_view(old(chunks)@).push(c@),
{
    chunks.push(c);
    proof {
        lemma_strings_view_push(old(chunks)@, c);
    }
}

/// `x` is the text of a code block of `bs` that passes the target.
pub open spec fn big_code_block(bs: Seq<(BlockType, Seq<char>)>, x: Seq<char>) -> bool {
    exists|j: int|
        0 <= j < bs.len() && (#[trigger] bs[j]).0 == BlockType::CodeBlock && bs[j].1 == x
            && token_count(x) > TARGET_CHUNK_TOKENS
}

/// A chunk of merged blocks within the maximum, or a code block above the
/// target.
pub open spec fn block_chunk_ok(bs: Seq<(BlockType, Seq<char>)>, x: Seq<char>) -> bool {
    token_count(x) <= MAX_CHUNK_TOKENS || big_code_block(bs, x)
}

/// Merges adjacent small blocks into chunks respecting token limits. Every
/// chunk is within the maximum, except a code block above the target, which
/// is a chunk of its own.
pub fn merge_blocks_into_chunks(blocks: Vec<MarkdownBlock>) -> (chunks: Vec<String>)
    ensures
        strings_view(chunks@) == merged_blocks(blocks_view(blocks@)),
        forall|i: int|
            0 <= i < chunks@.len() ==> block_chunk_ok(blocks_view(blocks@), #[trigger] chunks@[i]@),
{
    let ghost bs = blocks_view(blocks@);
    let mut chunks: Vec<String> = Vec::new();
    let mut current = String::new();
    let mut current_tokens: usize = 0;
    let mut i: usize = 0;
    assert(strings_view(chunks@) =~= Seq::<Seq<char>>::empty());
    while i < blocks.len()
        invariant
            i <= blocks.len(),
            bs == blocks_view(blocks@),
            blocks_fold(bs, i as int, (strings_view(chunks@), current@, current_tokens as nat))
                == blocks_fold(bs, 0, (Seq::empty(), Seq::empty(), 0)),
            forall|k: int| 0 <= k < chunks@.len() ==> block_chunk_ok(bs, #[trigger] chunks@[k]@),
            current@.len() > 0 ==> token_count(current@) <= MAX_CHUNK_TOKENS,
        decreases blocks.len() - i,
    {
        let ghost st = (strings_view(chunks@), current@, current_tokens as nat);
        let block_type = blocks[i].block_type;
        let content = blocks[i].content.clone();
        assert(bs[i as int] == (block_type, content@));
        let block_tokens = count_tokens(content.as_str());
        if block_type == BlockType::CodeBlock {
            if !current.as_str().is_empty() {
                push_chunk(&mut chunks, current);
                current = String::new();
                current_tokens = 0;
            }
            if block_tokens > TARGET_CHUNK_TOKENS {
                // code blocks stay whole, even above the limits
                assert(big_code_block(bs, content@));
                push_chunk(&mut chunks, content);
            } else {
                current = content;
                current_tokens = block_tokens;
            }
        } else {
            if block_type == BlockType::Header && !current.as_str().is_empty() && current_tokens
                >= MIN_CHUNK_TOKENS {
                push_chunk(&mut chunks, current);
                current = String::new();
                current_tokens = 0;
            }
            let fits_sum = current_tokens <= TARGET_CHUNK_TOKENS && block_tokens
                <= TARGET_CHUNK_TOKENS - current_tokens;
            let cand = if current.as_str().is_empty() {
                content.clone()
            } else {
                joined_string(&current, &content)
            };
            let fits = fits_sum && count_tokens(cand.as_str()) <= MAX_CHUNK_TOKENS;
            if fits {
                current = cand;
                current_tokens = current_tokens + block_tokens;
            } else if block_tokens > TARGET_CHUNK_TOKENS {
                if !current.as_str().is_empty() {
                    push_chunk(&mut chunks, current);
                    current = String::new();
                    current_tokens = 0;
                }
                let subs = split_block_by_sentences(content.as_str(), TARGET_CHUNK_TOKENS);
                let ghost ps = strings_view(subs@);
                let ghost st2 = (strings_view(chunks@), current@, current_tokens as nat);
                let mut k: usize = 0;
                while k < subs.len()
                    invariant
                        k <= subs.len(),
                        ps == strings_view(subs@),
                        pieces_from(
                            ps,
                            k as int,
                            (strings_view(chunks@), current@, current_tokens as nat),
                        ) == pieces_from(ps, 0, st2),
                        forall|q: int|
                            0 <= q < chunks@.len() ==> block_chunk_ok(bs, #[trigger] chunks@[q]@),
                        current@.len() > 0 ==> token_count(current@) <= MAX_CHUNK_TOKENS,
                    decreases subs.len() - k,
                {
                    let ghost stk = (strings_view(chunks@), current@, current_tokens as nat);
                    let sub = subs[k].clone();
                    assert(ps[k as int] == sub@);
                    let sub_tokens = count_tokens(sub.as_str());
                    if sub_tokens > MAX_CHUNK_TOKENS {
                        if !current.as_str().is_empty() {
                            push_chunk(&mut chunks, current);
                        }
                        current = String::new();
                        current_tokens = 0;
                        let windows = split_by_chars(sub.as_str(), OVERSIZE_PIECE_CHARS);
                        let ghost base = strings_view(chunks@);
                        let mut w: usize = 0;
                        while w < windows.len()
                            invariant
                                w <= windows.len(),
                                strings_view(chunks@) == base + strings_view(windows@).take(
                                    w as int,
                                ),
                                forall|q: int|
                                    0 <= q < windows@.len() ==> (#[trigger] windows@[q])@.len()
                                        <= OVERSIZE_PIECE_CHARS,
                                forall|q: int|
                                    0 <= q < chunks@.len() ==> block_chunk_ok(
                                        bs,
                                        #[trigger] chunks@[q]@,
                                    ),
                            decreases windows.len() - w,
                        {
                            let piece = windows[w].clone();
                            assert(piece@ == strings_view(windows@)[w as int]);
                            let piece_tokens = count_tokens(piece.as_str());
                            proof {
                                lemma_byte_len_ge_len(piece@);
                            }
                            assert(token_count(piece@) <= MAX_CHUNK_TOKENS);
                            let ghost before = strings_view(chunks@);
                            push_chunk(&mut chunks, piece);
                            w = w + 1;
                            assert(strings_view(windows@).take(w as int) =~= strings_view(
                                windows@,
                            ).take(w - 1).push(piece@));
                        }
                        assert(strings_view(windows@).take(w as int) =~= strings_view(windows@));
                    } else if k == 0 {
                        if !current.as_str().is_empty() {
                            push_chunk(&mut chunks, current);
                        }
                        current = sub;
                        current_tokens = sub_tokens;
                    } else if !(current_tokens <= TARGET_CHUNK_TOKENS && sub_tokens
                        <= TARGET_CHUNK_TOKENS - current_tokens) {
                        if !current.as_str().is_empty() {
                            push_chunk(&mut chunks, current);
                        }
                        current = sub;
                        current_tokens = sub_tokens;
                    } else {
                        let mut cand2 = current.clone();
                        push_str(&mut cand2, sub.as_str());
                        if count_tokens(cand2.as_str()) > MAX_CHUNK_TOKENS {
                            if !current.as_str().is_empty() {
                                push_chunk(&mut chunks, current);
                            }
                            current = sub;
                            current_tokens = sub_tokens;
                        } else {
                            current = cand2;
                            current_tokens = current_tokens + sub_tokens;
                        }
                    }
                    assert((strings_view(chunks@), current@, current_tokens as nat) =~= piece_step(
                        stk,
                        ps[k as int],
                        k == 0,
                    ));
                    k = k + 1;
                }
                assert(pieces_from(ps, k as int, (strings_view(chunks@), current@, current_tokens as nat))
                    == (strings_view(chunks@), current@, current_tokens as nat));
            } else {
                if !current.as_str().is_empty() {
                    push_chunk(&mut chunks, current);
                }
                current = content;
                current_tokens = block_tokens;
            }
        }
        assert((strings_view(chunks@), current@, current_tokens as nat) =~= block_step(
            st,
            bs[i as int],
        ));
        i = i + 1;
    }
    if !current.as_str().is_empty() {
        push_chunk(&mut chunks, current);
    }
    assert(strings_view(chunks@) =~= merged_blocks(bs));
    chunks
}


// ---------------------------------------------------------------------------
// Merging small chunks, overlap
// ---------------------------------------------------------------------------

/// A chunk below the minimum size.
pub open spec fn small_chunk(c: Seq<char>) -> bool {
    token_count(c) < MIN_CHUNK_TOKENS
}

/// Chunks `j` and `j + 1` exist and, joined by a blank line, take at most
/// `bound` tokens.
pub open spec fn joins_within(cs: Seq<Seq<char>>, j: int, bound: nat) -> bool {
    0 <= j && j + 1 < cs.len() && token_count(joined(cs[j], cs[j + 1])) <= bound
}

/// Chunk `i` is below the minimum and can be merged with the chunk after or
/// before it without passing the maximum.
pub open spec fn mergeable(cs: Seq<Seq<char>>, i: int) -> bool {
    0 <= i < cs.len() && small_chunk(cs[i]) && (joins_within(cs, i, MAX_CHUNK_TOKENS as nat)
        || joins_within(cs, i - 1, MAX_CHUNK_TOKENS as nat))
}

/// Chunks `j` and `j + 1` replaced by the two joined by a blank line.
pub open spec fn merge_pair(cs: Seq<Seq<char>>, j: int) -> Seq<Seq<char>> {
    cs.take(j).push(joined(cs[j], cs[j + 1])) + cs.skip(j + 2)
}

/// Where a mergeable chunk `i` goes: into the next chunk while the two fit
/// the target, else into the previous chunk within the maximum, else into
/// the next chunk within the maximum.
pub open spec fn merge_partner(cs: Seq<Seq<char>>, i: int) -> int {
    if joins_within(cs, i, TARGET_CHUNK_TOKENS as nat) {
        i
    } else if joins_within(cs, i - 1, MAX_CHUNK_TOKENS as nat) {
        i - 1
    } else {
        i
    }
}

/// The first mergeable chunk at or after `from`, or the number of chunks if
/// there is none.
pub open spec fn first_mergeable(cs: Seq<Seq<char>>, from: int) -> int
    decreases cs.len() - from,
{
    if from < 0 || from >= cs.len() {
        cs.len() as int
    } else if mergeable(cs, from) {
        from
    } else {
        first_mergeable(cs, from + 1)
    }
}

pub proof fn lemma_first_mergeable(cs: Seq<Seq<char>>, from: int)
    requires
        0 <= from,
    ensures
        first_mergeable(cs, from) == cs.len() || (from <= first_mergeable(cs, from) < cs.len()
            && mergeable(cs, first_mergeable(cs, from))),
        first_mergeable(cs, from) == cs.len() ==> forall|i: int|
            from <= i < cs.len() ==> !#[trigger] mergeable(cs, i),
    decreases cs.len() - from,
{
    if from < cs.len() && !mergeable(cs, from) {
        lemma_first_mergeable(cs, from + 1);
    }
}

pub proof fn lemma_merge_pair_len(cs: Seq<Seq<char>>, j: int)
    requires
        0 <= j,
        j + 1 < cs.len(),
    ensures
        merge_pair(cs, j).len() == cs.len() - 1,
{
}

pub proof fn lemma_merge_partner(cs: Seq<Seq<char>>, i: int)
    requires
        mergeable(cs, i),
    ensures
        joins_within(cs, merge_partner(cs, i), MAX_CHUNK_TOKENS as nat),
        merge_partner(cs, i) == i || merge_partner(cs, i) == i - 1,
{
}

/// Chunks with those below the minimum merged into a neighbour, one at a
/// time from the front, until no chunk below the minimum can be merged
/// without passing the maximum.
pub open spec fn merged_small(cs: Seq<Seq<char>>) -> Seq<Seq<char>>
    decreases cs.len(),
{
    let i = first_mergeable(cs, 0);
    if i < cs.len() {
        proof {
            lemma_first_mergeable(cs, 0);
            lemma_merge_partner(cs, i);
            lemma_merge_pair_len(cs, merge_partner(cs, i));
        }
        merged_small(merge_pair(cs, merge_partner(cs, i)))
    } else {
        cs
    }
}

fn joined_string(a: &String, b: &String) -> (r: String)
    ensures
        r@ == joined(a@, b@),
{
    let mut r = a.clone();
    push_blank_line(&mut r);
    push_str(&mut r, b.as_str());
    r
}

/// Whether chunks `j` and `j + 1` exist and join within `bound` tokens.
fn joins_within_exec(cs: &Vec<String>, j: usize, bound: usize) -> (r: bool)
    ensures
        r == joins_within(strings_view(cs@), j as int, bound as nat),
{
    if j < cs.len() && cs.len() - j > 1 {
        let w = joined_string(&cs[j], &cs[j + 1]);
        count_tokens(w.as_str()) <= bound
    } else {
        false
    }
}

/// The first mergeable chunk, or the number of chunks if there is none.
fn find_mergeable(cs: &Vec<String>) -> (r: usize)
    ensures
        r == first_mergeable(strings_view(cs@), 0),
{
    let ghost sv = strings_view(cs@);
    let mut i: usize = 0;
    while i < cs.len()
        invariant
            i <= cs.len(),
            sv == strings_view(cs@),
            first_mergeable(sv, i as int) == first_mergeable(sv, 0),
        decreases cs.len() - i,
    {
        assert(sv[i as int] == cs@[i as int]@);
        if count_tokens(cs[i].as_str()) < MIN_CHUNK_TOKENS {
            if joins_within_exec(cs, i, MAX_CHUNK_TOKENS) || (i > 0 && joins_within_exec(
                cs,
                i - 1,
                MAX_CHUNK_TOKENS,
            )) {
                return i;
            }
        }
        i = i + 1;
    }
    i
}

/// The chunks with `j` and `j + 1` joined.
fn merge_pair_exec(cs: &Vec<String>, j: usize) -> (r: Vec<String>)
    requires
        j + 1 < cs.len(),
    ensures
        strings_view(r@) == merge_pair(strings_view(cs@), j as int),
{
    let ghost sv = strings_view(cs@);
    let mut r: Vec<String> = Vec::new();
    let mut k: usize = 0;
    while k < cs.len()
        invariant
            j + 1 < cs.len(),
            sv == strings_view(cs@),
            k <= j ==> strings_view(r@) == sv.take(k as int),
            j < k ==> k >= j + 2 && strings_view(r@) == sv.take(j as int).push(
                joined(sv[j as int], sv[j + 1]),
            ) + sv.subrange(j + 2, k as int),
            k <= cs.len(),
        decreases cs.len() - k,
    {
        let ghost before = strings_view(r@);
        if k == j {
            let w = joined_string(&cs[j], &cs[j + 1]);
            push_chunk(&mut r, w);
            k = k + 2;
            assert(strings_view(r@) =~= sv.take(j as int).push(joined(sv[j as int], sv[j + 1]))
                + sv.subrange(j + 2, k as int));
        } else {
            let c = cs[k].clone();
            push_chunk(&mut r, c);
            assert(sv[k as int] == c@);
            k = k + 1;
            if k <= j {
                assert(strings_view(r@) =~= sv.take(k as int));
            } else {
                assert(strings_view(r@) =~= sv.take(j as int).push(joined(sv[j as int], sv[j + 1]))
                    + sv.subrange(j + 2, k as int));
            }
        }
    }
    assert(sv.subrange(j + 2, cs.len() as int) =~= sv.skip(j + 2));
    r
}

/// Every chunk of `merged_small(cs)` is a chunk of `cs` or takes at most
/// the maximum.
pub proof fn lemma_merged_small_bound(cs: Seq<Seq<char>>)
    ensures
        forall|k: int|
            0 <= k < merged_small(cs).len() ==> token_count(#[trigger] merged_small(cs)[k])
                <= MAX_CHUNK_TOKENS || cs.contains(merged_small(cs)[k]),
    decreases cs.len(),
{
    let i = first_mergeable(cs, 0);
    lemma_first_mergeable(cs, 0);
    if i < cs.len() {
        lemma_merge_partner(cs, i);
        let j = merge_partner(cs, i);
        let m = merge_pair(cs, j);
        lemma_merge_pair_len(cs, j);
        lemma_merged_small_bound(m);
        assert forall|k: int| 0 <= k < merged_small(cs).len() implies token_count(
            #[trigger] merged_small(cs)[k],
        ) <= MAX_CHUNK_TOKENS || cs.contains(merged_small(cs)[k]) by {
            let x = merged_small(cs)[k];
            assert(merged_small(cs) == merged_small(m));
            if !(token_count(x) <= MAX_CHUNK_TOKENS) {
                assert(m.contains(x));
                let q = choose|q: int| 0 <= q < m.len() && m[q] == x;
                if q < j {
                    assert(m[q] == cs[q]);
                } else if q == j {
                    assert(m[q] == joined(cs[j], cs[j + 1]));
                } else {
                    assert(m[q] == cs[q + 1]);
                }
            }
        }
    }
}

/// No chunk of `merged_small(cs)` is still mergeable.
pub proof fn lemma_merged_small_settled(cs: Seq<Seq<char>>)
    ensures
        forall|i: int| 0 <= i < merged_small(cs).len() ==> !#[trigger] mergeable(merged_small(cs), i),
    decreases cs.len(),
{
    let i = first_mergeable(cs, 0);
    lemma_first_mergeable(cs, 0);
    if i < cs.len() {
        lemma_merge_partner(cs, i);
        let j = merge_partner(cs, i);
        lemma_merge_pair_len(cs, j);
        lemma_merged_small_settled(merge_pair(cs, j));
        assert(merged_small(cs) == merged_small(merge_pair(cs, j)));
    } else {
        assert(merged_small(cs) == cs);
    }
}

/// Merges chunks below the minimum with adjacent chunks. No chunk passes the
/// maximum through a merge, and a chunk left below the minimum has no
/// neighbour it could join within the maximum.
pub fn merge_small_chunks(chunks: Vec<String>) -> (result: Vec<String>)
    ensures
        strings_view(result@) == merged_small(strings_view(chunks@)),
        forall|k: int|
            0 <= k < result@.len() ==> token_count(#[trigger] result@[k]@) <= MAX_CHUNK_TOKENS
                || strings_view(chunks@).contains(result@[k]@),
        forall|i: int| 0 <= i < result@.len() ==> !#[trigger] mergeable(strings_view(result@), i),
{
    let ghost cs = strings_view(chunks@);
    let mut cur = chunks;
    loop
        invariant
            merged_small(strings_view(cur@)) == merged_small(cs),
        ensures
            strings_view(cur@) == merged_small(cs),
        decreases cur.len(),
    {
        let ghost sv = strings_view(cur@);
        let i = find_mergeable(&cur);
        proof {
            lemma_first_mergeable(sv, 0);
        }
        if i >= cur.len() {
            assert(merged_small(sv) == sv);
            break;
        }
        proof {
            lemma_merge_partner(sv, i as int);
        }
        let j = if joins_within_exec(&cur, i, TARGET_CHUNK_TOKENS) {
            i
        } else if i > 0 && joins_within_exec(&cur, i - 1, MAX_CHUNK_TOKENS) {
            i - 1
        } else {
            i
        };
        assert(j == merge_partner(sv, i as int));
        proof {
            lemma_merge_pair_len(sv, j as int);
        }
        cur = merge_pair_exec(&cur, j);
    }
    proof {
        lemma_merged_small_bound(cs);
        lemma_merged_small_settled(cs);
        assert forall|k: int| 0 <= k < cur@.len() implies token_count(#[trigger] cur@[k]@)
            <= MAX_CHUNK_TOKENS || cs.contains(cur@[k]@) by {
            assert(strings_view(cur@)[k] == cur@[k]@);
            assert(merged_small(cs)[k] == cur@[k]@);
        }
        assert forall|i: int| 0 <= i < cur@.len() implies !#[trigger] mergeable(strings_view(cur@), i) by {
            assert(mergeable(merged_small(cs), i) == mergeable(strings_view(cur@), i));
        }
    }
    cur
}

/// Each chunk but the last followed by a blank line and the first
/// `overlap` tokens of the next chunk; unchanged when there are fewer than
/// two chunks or no overlap.
pub open spec fn overlapped(cs: Seq<Seq<char>>, overlap: nat) -> Seq<Seq<char>> {
    if cs.len() <= 1 || overlap == 0 {
        cs
    } else {
        Seq::new(
            cs.len(),
            |i: int|
                if i < cs.len() - 1 {
                    joined(cs[i], first_n_tokens(cs[i + 1], overlap))
                } else {
                    cs[i]
                },
        )
    }
}

/// Applies overlap between consecutive chunks.
pub fn apply_overlap(chunks: Vec<String>, overlap_tokens: usize) -> (result: Vec<String>)
    ensures
        strings_view(result@) == overlapped(strings_view(chunks@), overlap_tokens as nat),
{
    let ghost cs = strings_view(chunks@);
    if chunks.len() <= 1 || overlap_tokens == 0 {
        return chunks;
    }
    let mut result: Vec<String> = Vec::new();
    let mut i: usize = 0;
    while i < chunks.len()
        invariant
            1 < chunks.len(),
            i <= chunks.len(),
            overlap_tokens > 0,
            cs == strings_view(chunks@),
            strings_view(result@) == overlapped(cs, overlap_tokens as nat).take(i as int),
        decreases chunks.len() - i,
    {
        let ghost r0 = result@;
        assert(cs[i as int] == chunks@[i as int]@);
        if i < chunks.len() - 1 {
            assert(cs[i + 1] == chunks@[i + 1]@);
            let next_overlap = get_first_n_tokens(chunks[i + 1].as_str(), overlap_tokens);
            let extended = joined_string(&chunks[i], &next_overlap);
            result.push(extended);
        } else {
            result.push(chunks[i].clone());
        }
        proof {
            lemma_strings_view_push(r0, result@.last());
            assert(result@ == r0.push(result@.last()));
        }
        i = i + 1;
        assert(strings_view(result@) =~= overlapped(cs, overlap_tokens as nat).take(i as int));
    }
    assert(overlapped(cs, overlap_tokens as nat).take(i as int) =~= overlapped(
        cs,
        overlap_tokens as nat,
    ));
    result
}

/// The chunks of a text before overlap: its markdown blocks merged into
/// chunks within the token limits, then small chunks merged into
/// neighbours.
pub open spec fn pre_overlap_chunks(s: Seq<char>) -> Seq<Seq<char>> {
    if s.len() == 0 || markdown_blocks(s).len() == 0 {
        Seq::empty()
    } else {
        merged_small(merged_blocks(markdown_blocks(s)))
    }
}

/// The chunks of a text: those before overlap, each but the last followed
/// by the first tokens of the next.
pub open spec fn chunked(s: Seq<char>) -> Seq<Seq<char>> {
    overlapped(pre_overlap_chunks(s), OVERLAP_TOKENS as nat)
}

/// Chunks content into smaller pieces for embedding generation.
///
/// Chunking strategy:
/// - Markdown-aware: respects code blocks, headers, lists, paragraphs
/// - Never splits code blocks (kept whole for syntax integrity)
/// - Headers create natural chunk boundaries
/// - Target chunk size: 2500 tokens
/// - Minimum chunk size: 100 tokens (smaller ones merged with a neighbour)
/// - Maximum chunk size: 3000 tokens before overlap (except a code block
///   above the target)
/// - Overlap: the first 200 tokens of the next chunk appended to each chunk
pub fn chunk_content(content: &str) -> (chunks: Vec<String>)
    ensures
        strings_view(chunks@) == chunked(content@),
        forall|i: int|
            0 <= i < pre_overlap_chunks(content@).len() ==> token_count(
                #[trigger] pre_overlap_chunks(content@)[i],
            ) <= MAX_CHUNK_TOKENS || big_code_block(
                markdown_blocks(content@),
                pre_overlap_chunks(content@)[i],
            ),
{
    if content.is_empty() {
        let empty: Vec<String> = Vec::new();
        assert(strings_view(empty@) =~= Seq::<Seq<char>>::empty());
        assert(pre_overlap_chunks(content@) =~= Seq::<Seq<char>>::empty());
        return empty;
    }
    let blocks = parse_markdown_blocks(content);
    if blocks.len() == 0 {
        let empty: Vec<String> = Vec::new();
        assert(blocks_view(blocks@) =~= Seq::<(BlockType, Seq<char>)>::empty());
        assert(strings_view(empty@) =~= Seq::<Seq<char>>::empty());
        return empty;
    }
    assert(blocks_view(blocks@).len() == blocks@.len());
    let ghost bs = blocks_view(blocks@);
    let merged = merge_blocks_into_chunks(blocks);
    let ghost m0 = merged@;
    let small = merge_small_chunks(merged);
    let ghost m1 = small@;
    assert forall|i: int| 0 <= i < pre_overlap_chunks(content@).len() implies token_count(
        #[trigger] pre_overlap_chunks(content@)[i],
    ) <= MAX_CHUNK_TOKENS || big_code_block(markdown_blocks(content@), pre_overlap_chunks(content@)[i]) by {
        let x = pre_overlap_chunks(content@)[i];
        assert(x == m1[i]@);
        if token_count(x) > MAX_CHUNK_TOKENS {
            assert(strings_view(m0).contains(m1[i]@));
            let q = choose|q: int| 0 <= q < strings_view(m0).len() && strings_view(m0)[q] == x;
            assert(m0[q]@ == x);
            assert(block_chunk_ok(bs, m0[q]@));
        }
    }
    apply_overlap(small, OVERLAP_TOKENS)
}

} // verus!
