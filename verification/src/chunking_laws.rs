//! What chunking keeps: no content that fits a chunk is cut apart.

use vstd::prelude::*;
use crate::chunking::{
    block_step, blocks_fold, chunked, first_mergeable, flush, flushed, joined,
    lemma_first_mergeable, lemma_merge_pair_len, lemma_merge_partner, merge_pair, merge_partner,
    merged_blocks, merged_small, overlapped, piece_step, pieces_from, SplitState,
    MIN_CHUNK_TOKENS, OVERLAP_TOKENS, TARGET_CHUNK_TOKENS, token_count,
};
use crate::markdown::{markdown_blocks, markdown_blocks_nonempty, BlockType};

verus! {

/// `x` occurs as a contiguous part of `hay`.
pub open spec fn contains_seq(hay: Seq<char>, x: Seq<char>) -> bool {
    exists|i: int| 0 <= i <= hay.len() - x.len() && #[trigger] hay.subrange(i, i + x.len()) == x
}

/// `x` occurs whole inside one of the chunks `cs`.
pub open spec fn covered(x: Seq<char>, cs: Seq<Seq<char>>) -> bool {
    exists|k: int| 0 <= k < cs.len() && contains_seq(#[trigger] cs[k], x)
}

proof fn lemma_contains_self(x: Seq<char>)
    ensures
        contains_seq(x, x),
{
    let z: int = 0;
    assert(x.subrange(z, z + x.len()) =~= x);
}

proof fn lemma_contains_append(a: Seq<char>, b: Seq<char>, x: Seq<char>)
    requires
        contains_seq(a, x),
    ensures
        contains_seq(a + b, x),
{
    let i = choose|i: int| 0 <= i <= a.len() - x.len() && #[trigger] a.subrange(i, i + x.len()) == x;
    assert((a + b).subrange(i, i + x.len()) =~= a.subrange(i, i + x.len()));
}

proof fn lemma_contains_prepend(a: Seq<char>, b: Seq<char>, x: Seq<char>)
    requires
        contains_seq(b, x),
    ensures
        contains_seq(a + b, x),
{
    let i = choose|i: int| 0 <= i <= b.len() - x.len() && #[trigger] b.subrange(i, i + x.len()) == x;
    assert((a + b).subrange(a.len() + i, a.len() + i + x.len()) =~= b.subrange(i, i + x.len()));
}

proof fn lemma_covered_concat(cs: Seq<Seq<char>>, ys: Seq<Seq<char>>, x: Seq<char>)
    requires
        covered(x, cs),
    ensures
        covered(x, cs + ys),
{
    let k = choose|k: int| 0 <= k < cs.len() && contains_seq(#[trigger] cs[k], x);
    assert((cs + ys)[k] == cs[k]);
}

proof fn lemma_covered_push(cs: Seq<Seq<char>>, y: Seq<char>, x: Seq<char>)
    requires
        covered(x, cs) || contains_seq(y, x),
    ensures
        covered(x, cs.push(y)),
{
    if covered(x, cs) {
        let k = choose|k: int| 0 <= k < cs.len() && contains_seq(#[trigger] cs[k], x);
        assert(cs.push(y)[k] == cs[k]);
    } else {
        assert(cs.push(y)[cs.len() as int] == y);
    }
}

/// `x` is in a finished chunk or in the open chunk of a state.
pub open spec fn covered_in(x: Seq<char>, st: SplitState) -> bool {
    covered(x, st.0) || contains_seq(st.1, x)
}

proof fn lemma_flush_keeps(st: SplitState, x: Seq<char>)
    requires
        covered_in(x, st),
        x.len() > 0,
    ensures
        covered_in(x, flush(st)),
        covered(x, flushed(st)),
{
    if st.1.len() > 0 {
        lemma_covered_push(st.0, st.1, x);
    } else if !covered(x, st.0) {
        let i = choose|i: int|
            0 <= i <= st.1.len() - x.len() && #[trigger] st.1.subrange(i, i + x.len()) == x;
        assert(false);
    }
}

proof fn lemma_piece_keeps(st: SplitState, p: Seq<char>, first: bool, x: Seq<char>)
    requires
        covered_in(x, st),
        x.len() > 0,
    ensures
        covered_in(x, piece_step(st, p, first)),
{
    let n = token_count(p);
    if n > crate::chunking::MAX_CHUNK_TOKENS {
        lemma_flush_keeps(st, x);
        lemma_covered_concat(
            flushed(st),
            crate::chunking::char_windows(p, crate::chunking::OVERSIZE_PIECE_CHARS as nat),
            x,
        );
    } else if first || st.2 + n > TARGET_CHUNK_TOKENS || token_count(st.1 + p)
        > crate::chunking::MAX_CHUNK_TOKENS {
        lemma_flush_keeps(st, x);
    } else if !covered(x, st.0) {
        lemma_contains_append(st.1, p, x);
    }
}

proof fn lemma_pieces_keep(ps: Seq<Seq<char>>, k: int, st: SplitState, x: Seq<char>)
    requires
        covered_in(x, st),
        x.len() > 0,
    ensures
        covered_in(x, pieces_from(ps, k, st)),
    decreases ps.len() - k,
{
    if 0 <= k < ps.len() {
        lemma_piece_keeps(st, ps[k], k == 0, x);
        lemma_pieces_keep(ps, k + 1, piece_step(st, ps[k], k == 0), x);
    }
}

/// A block that the merge never cuts: a code block, or one that fits the
/// target.
pub open spec fn kept_whole(b: (BlockType, Seq<char>)) -> bool {
    b.0 == BlockType::CodeBlock || token_count(b.1) <= TARGET_CHUNK_TOKENS
}

proof fn lemma_block_step_keeps(st: SplitState, b: (BlockType, Seq<char>), x: Seq<char>)
    requires
        covered_in(x, st),
        x.len() > 0,
    ensures
        covered_in(x, block_step(st, b)),
{
    let c = b.1;
    let n = token_count(c);
    if b.0 == BlockType::CodeBlock {
        lemma_flush_keeps(st, x);
        let st1 = flush(st);
        if n > TARGET_CHUNK_TOKENS {
            if covered(x, st1.0) {
                lemma_covered_push(st1.0, c, x);
            } else {
                assert(st1.1 == st.1 && st.1.len() == 0);
                let i = choose|i: int|
                    0 <= i <= st1.1.len() - x.len() && #[trigger] st1.1.subrange(i, i + x.len())
                        == x;
                assert(false);
            }
        } else {
            if !covered(x, st1.0) {
                assert(st1.1.len() == 0);
                let i = choose|i: int|
                    0 <= i <= st1.1.len() - x.len() && #[trigger] st1.1.subrange(i, i + x.len())
                        == x;
                assert(false);
            }
        }
    } else {
        let st1 = if b.0 == BlockType::Header && st.1.len() > 0 && st.2 >= MIN_CHUNK_TOKENS {
            flush(st)
        } else {
            st
        };
        lemma_flush_keeps(st, x);
        assert(covered_in(x, st1));
        let cand = if st1.1.len() > 0 {
            joined(st1.1, c)
        } else {
            c
        };
        if st1.2 + n <= TARGET_CHUNK_TOKENS && token_count(cand) <= crate::chunking::MAX_CHUNK_TOKENS {
            if !covered(x, st1.0) && st1.1.len() > 0 {
                lemma_contains_append(st1.1, crate::chunking::blank_line() + c, x);
                assert(joined(st1.1, c) =~= st1.1 + (crate::chunking::blank_line() + c));
            } else if !covered(x, st1.0) {
                let i = choose|i: int|
                    0 <= i <= st1.1.len() - x.len() && #[trigger] st1.1.subrange(i, i + x.len())
                        == x;
                assert(false);
            }
        } else if n > TARGET_CHUNK_TOKENS {
            lemma_flush_keeps(st1, x);
            lemma_pieces_keep(
                crate::chunking::sentence_split(c, TARGET_CHUNK_TOKENS as nat),
                0,
                flush(st1),
                x,
            );
        } else {
            lemma_flush_keeps(st1, x);
        }
    }
}

proof fn lemma_block_step_adds(st: SplitState, b: (BlockType, Seq<char>))
    requires
        kept_whole(b),
        b.1.len() > 0,
    ensures
        covered_in(b.1, block_step(st, b)),
{
    let c = b.1;
    let n = token_count(c);
    lemma_contains_self(c);
    if b.0 == BlockType::CodeBlock {
        let st1 = flush(st);
        if n > TARGET_CHUNK_TOKENS {
            lemma_covered_push(st1.0, c, c);
        }
    } else {
        let st1 = if b.0 == BlockType::Header && st.1.len() > 0 && st.2 >= MIN_CHUNK_TOKENS {
            flush(st)
        } else {
            st
        };
        let cand = if st1.1.len() > 0 {
            joined(st1.1, c)
        } else {
            c
        };
        if st1.2 + n <= TARGET_CHUNK_TOKENS && token_count(cand) <= crate::chunking::MAX_CHUNK_TOKENS {
            if st1.1.len() > 0 {
                lemma_contains_prepend(st1.1 + crate::chunking::blank_line(), c, c);
            }
        }
    }
}

proof fn lemma_fold_keeps(bs: Seq<(BlockType, Seq<char>)>, k: int, st: SplitState, x: Seq<char>)
    requires
        covered_in(x, st),
        x.len() > 0,
    ensures
        covered_in(x, blocks_fold(bs, k, st)),
    decreases bs.len() - k,
{
    if 0 <= k < bs.len() {
        lemma_block_step_keeps(st, bs[k], x);
        lemma_fold_keeps(bs, k + 1, block_step(st, bs[k]), x);
    }
}

proof fn lemma_fold_adds(bs: Seq<(BlockType, Seq<char>)>, k: int, st: SplitState, j: int)
    requires
        0 <= k <= j < bs.len(),
        kept_whole(bs[j]),
        bs[j].1.len() > 0,
    ensures
        covered_in(bs[j].1, blocks_fold(bs, k, st)),
    decreases j - k,
{
    if k == j {
        lemma_block_step_adds(st, bs[k]);
        lemma_fold_keeps(bs, k + 1, block_step(st, bs[k]), bs[j].1);
    } else {
        lemma_fold_adds(bs, k + 1, block_step(st, bs[k]), j);
    }
}

/// Merging blocks into chunks cuts no code block, and no block that fits
/// the target: each such (non-empty) block occurs whole inside one chunk.
pub proof fn merged_blocks_keep_blocks(bs: Seq<(BlockType, Seq<char>)>, j: int)
    requires
        0 <= j < bs.len(),
        kept_whole(bs[j]),
        bs[j].1.len() > 0,
    ensures
        covered(bs[j].1, merged_blocks(bs)),
{
    let st = blocks_fold(bs, 0, (Seq::empty(), Seq::empty(), 0));
    lemma_fold_adds(bs, 0, (Seq::empty(), Seq::empty(), 0), j);
    lemma_flush_keeps(st, bs[j].1);
}

// ---------------------------------------------------------------------------
// Merging small chunks
// ---------------------------------------------------------------------------

proof fn lemma_merge_pair_keeps(cs: Seq<Seq<char>>, j: int, x: Seq<char>)
    requires
        0 <= j,
        j + 1 < cs.len(),
        covered(x, cs),
    ensures
        covered(x, merge_pair(cs, j)),
{
    let m = merge_pair(cs, j);
    let k = choose|k: int| 0 <= k < cs.len() && contains_seq(#[trigger] cs[k], x);
    if k < j {
        assert(m[k] == cs[k]);
    } else if k == j {
        assert(m[j] == joined(cs[j], cs[j + 1]));
        lemma_contains_append(cs[j], crate::chunking::blank_line() + cs[j + 1], x);
        assert(joined(cs[j], cs[j + 1]) =~= cs[j] + (crate::chunking::blank_line() + cs[j + 1]));
    } else if k == j + 1 {
        assert(m[j] == joined(cs[j], cs[j + 1]));
        lemma_contains_prepend(cs[j] + crate::chunking::blank_line(), cs[j + 1], x);
    } else {
        assert(m[k - 1] == cs[k]);
    }
}

proof fn lemma_merged_small_keeps(cs: Seq<Seq<char>>, x: Seq<char>)
    requires
        covered(x, cs),
    ensures
        covered(x, merged_small(cs)),
    decreases cs.len(),
{
    let i = first_mergeable(cs, 0);
    lemma_first_mergeable(cs, 0);
    if i < cs.len() {
        lemma_merge_partner(cs, i);
        let j = merge_partner(cs, i);
        lemma_merge_pair_len(cs, j);
        lemma_merge_pair_keeps(cs, j, x);
        lemma_merged_small_keeps(merge_pair(cs, j), x);
    }
}

/// Merging small chunks loses nothing: every input chunk occurs whole
/// inside one output chunk.
pub proof fn merged_small_keeps_chunks(cs: Seq<Seq<char>>, j: int)
    requires
        0 <= j < cs.len(),
    ensures
        covered(cs[j], merged_small(cs)),
{
    lemma_contains_self(cs[j]);
    assert(covered(cs[j], cs));
    lemma_merged_small_keeps(cs, cs[j]);
}

/// Overlap only appends: the chunks keep their number and order, and each
/// output chunk begins with the corresponding input chunk.
pub proof fn overlap_extends_chunks(cs: Seq<Seq<char>>, n: nat)
    ensures
        overlapped(cs, n).len() == cs.len(),
        forall|i: int|
            0 <= i < cs.len() ==> (#[trigger] overlapped(cs, n)[i]).subrange(0, cs[i].len() as int)
                == cs[i],
{
    assert forall|i: int| 0 <= i < cs.len() implies (#[trigger] overlapped(cs, n)[i]).subrange(
        0,
        cs[i].len() as int,
    ) == cs[i] by {
        if !(cs.len() <= 1 || n == 0) && i < cs.len() - 1 {
            let o = overlapped(cs, n)[i];
            assert(o == joined(cs[i], crate::chunking::first_n_tokens(cs[i + 1], n)));
            assert(o.subrange(0, cs[i].len() as int) =~= cs[i]);
        } else {
            assert(overlapped(cs, n)[i].subrange(0, cs[i].len() as int) =~= cs[i]);
        }
    }
}

proof fn lemma_covered_overlapped(x: Seq<char>, cs: Seq<Seq<char>>, n: nat)
    requires
        covered(x, cs),
    ensures
        covered(x, overlapped(cs, n)),
{
    overlap_extends_chunks(cs, n);
    let k = choose|k: int| 0 <= k < cs.len() && contains_seq(#[trigger] cs[k], x);
    let o = overlapped(cs, n)[k];
    assert(o =~= o.subrange(0, cs[k].len() as int) + o.subrange(cs[k].len() as int, o.len() as int));
    lemma_contains_append(cs[k], o.subrange(cs[k].len() as int, o.len() as int), x);
}

/// Chunking never splits a code block, nor any block that fits the target
/// chunk size: each occurs whole inside one chunk of the content.
pub proof fn chunk_content_keeps_blocks(s: Seq<char>, j: int)
    requires
        0 <= j < markdown_blocks(s).len(),
        kept_whole(markdown_blocks(s)[j]),
    ensures
        covered(markdown_blocks(s)[j].1, chunked(s)),
{
    markdown_blocks_nonempty(s, j);
    let bs = markdown_blocks(s);
    let x = bs[j].1;
    if s.len() == 0 {
        assert(crate::markdown::lines_of(s) =~= Seq::<Seq<char>>::empty());
        assert(bs.len() == 0);
    }
    merged_blocks_keep_blocks(bs, j);
    let mb = merged_blocks(bs);
    let k = choose|k: int| 0 <= k < mb.len() && contains_seq(#[trigger] mb[k], x);
    merged_small_keeps_chunks(mb, k);
    let ms = merged_small(mb);
    let k2 = choose|k2: int| 0 <= k2 < ms.len() && contains_seq(#[trigger] ms[k2], mb[k]);
    lemma_contains_trans(ms[k2], mb[k], x);
    assert(covered(x, ms));
    lemma_covered_overlapped(x, ms, OVERLAP_TOKENS as nat);
}

proof fn lemma_contains_trans(a: Seq<char>, b: Seq<char>, x: Seq<char>)
    requires
        contains_seq(a, b),
        contains_seq(b, x),
    ensures
        contains_seq(a, x),
{
    let i = choose|i: int| 0 <= i <= a.len() - b.len() && #[trigger] a.subrange(i, i + b.len()) == b;
    let j = choose|j: int| 0 <= j <= b.len() - x.len() && #[trigger] b.subrange(j, j + x.len()) == x;
    assert(a.subrange(i + j, i + j + x.len()) =~= b.subrange(j, j + x.len()));
}

} // verus!
