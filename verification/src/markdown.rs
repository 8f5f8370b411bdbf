//! Line splitting and the markdown block structure that chunking respects.

use vstd::prelude::*;
use crate::text::{byte_len, byte_len_of, chars_of, has_pair, has_pair_from, is_digit, is_whitespace, is_ws, starts_with, string_from_chars};

verus! {

// ---------------------------------------------------------------------------
// Lines
// ---------------------------------------------------------------------------

/// Index of the first `'\n'` in `s` at or after `i`, or `s.len()` if none.
pub open spec fn newline_from(s: Seq<char>, i: int) -> int
    decreases s.len() - i,
{
    if 0 <= i < s.len() {
        if s[i] == '\n' {
            i
        } else {
            newline_from(s, i + 1)
        }
    } else {
        s.len() as int
    }
}

pub proof fn lemma_newline_from_bounds(s: Seq<char>, i: int)
    requires
        0 <= i <= s.len(),
    ensures
        i <= newline_from(s, i) <= s.len(),
        newline_from(s, i) < s.len() ==> s[newline_from(s, i)] == '\n',
    decreases s.len() - i,
{
    if i < s.len() && s[i] != '\n' {
        lemma_newline_from_bounds(s, i + 1);
    }
}

pub proof fn lemma_newline_from_skip(s: Seq<char>, a: int, b: int)
    requires
        0 <= a <= b <= s.len(),
        forall|t: int| a <= t < b ==> s[t] != '\n',
    ensures
        newline_from(s, a) == newline_from(s, b),
    decreases b - a,
{
    if a < b {
        lemma_newline_from_skip(s, a + 1, b);
    }
}

/// A line without the `'\r'` of a `"\r\n"` terminator.
pub open spec fn strip_cr(l: Seq<char>) -> Seq<char> {
    if l.len() > 0 && l.last() == '\r' {
        l.drop_last()
    } else {
        l
    }
}

/// The lines of `s[pos..]` as `str::lines` yields them: split at `'\n'`,
/// a `'\r'` right before a `'\n'` removed, no line after a final `'\n'`.
pub open spec fn lines_from(s: Seq<char>, pos: int) -> Seq<Seq<char>>
    decreases s.len() - pos,
{
    if 0 <= pos < s.len() {
        let k = newline_from(s, pos);
        proof {
            lemma_newline_from_bounds(s, pos);
        }
        if k < s.len() {
            seq![strip_cr(s.subrange(pos, k))] + lines_from(s, k + 1)
        } else {
            seq![s.subrange(pos, s.len() as int)]
        }
    } else {
        Seq::empty()
    }
}

/// The lines of `s`.
pub open spec fn lines_of(s: Seq<char>) -> Seq<Seq<char>> {
    lines_from(s, 0)
}

/// The character sequences held by a vector of lines.
pub open spec fn line_views(lines: Seq<Vec<char>>) -> Seq<Seq<char>> {
    lines.map_values(|l: Vec<char>| l@)
}

/// Splits text into its lines (the behaviour of `str::lines`).
pub fn split_lines(s: &Vec<char>) -> (lines: Vec<Vec<char>>)
    ensures
        line_views(lines@) == lines_of(s@),
{
    let mut lines: Vec<Vec<char>> = Vec::new();
    let mut cur: Vec<char> = Vec::new();
    let mut pos: usize = 0;
    let mut j: usize = 0;
    while j < s.len()
        invariant
            pos <= j <= s.len(),
            cur@ == s@.subrange(pos as int, j as int),
            forall|t: int| pos <= t < j ==> s@[t] != '\n',
            line_views(lines@) + lines_from(s@, pos as int) == lines_of(s@),
        decreases s.len() - j,
    {
        if s[j] == '\n' {
            proof {
                lemma_newline_from_skip(s@, pos as int, j as int);
                assert(newline_from(s@, pos as int) == j);
                assert(lines_from(s@, pos as int) == seq![strip_cr(cur@)] + lines_from(
                    s@,
                    j + 1,
                ));
            }
            let mut line = cur;
            let n = line.len();
            if n > 0 && line[n - 1] == '\r' {
                line.pop();
            }
            assert(line@ == strip_cr(s@.subrange(pos as int, j as int)));
            let ghost old_lines = lines@;
            lines.push(line);
            assert(line_views(lines@) =~= line_views(old_lines).push(strip_cr(
                s@.subrange(pos as int, j as int),
            )));
            assert(line_views(lines@) + lines_from(s@, j + 1) =~= line_views(old_lines) + (seq![
                strip_cr(s@.subrange(pos as int, j as int))] + lines_from(s@, j + 1)));
            cur = Vec::new();
            pos = j + 1;
            j = j + 1;
            assert(cur@ =~= s@.subrange(pos as int, j as int));
        } else {
            cur.push(s[j]);
            j = j + 1;
            assert(cur@ =~= s@.subrange(pos as int, j as int));
        }
    }
    if pos < s.len() {
        proof {
            lemma_newline_from_skip(s@, pos as int, s.len() as int);
            assert(lines_from(s@, pos as int) == seq![cur@]);
        }
        let ghost old_lines = lines@;
        lines.push(cur);
        assert(line_views(lines@) =~= line_views(old_lines) + seq![s@.subrange(
            pos as int,
            s.len() as int,
        )]);
    } else {
        assert(lines_from(s@, pos as int) =~= Seq::<Seq<char>>::empty());
        assert(line_views(lines@) =~= line_views(lines@) + lines_from(s@, pos as int));
    }
    lines
}

/// The lines joined with `'\n'` between them (`[..].join("\n")`).
pub open spec fn join_lines(ls: Seq<Seq<char>>) -> Seq<char>
    decreases ls.len(),
{
    if ls.len() == 0 {
        Seq::empty()
    } else if ls.len() == 1 {
        ls[0]
    } else {
        join_lines(ls.drop_last()) + seq!['\n'] + ls.last()
    }
}

/// Joins `lines[a..b]` with `'\n'`.
pub fn join_line_range(lines: &Vec<Vec<char>>, a: usize, b: usize) -> (r: Vec<char>)
    requires
        a <= b <= lines.len(),
    ensures
        r@ == join_lines(line_views(lines@).subrange(a as int, b as int)),
{
    let ghost lv = line_views(lines@);
    let mut r: Vec<char> = Vec::new();
    let mut j: usize = a;
    while j < b
        invariant
            a <= j <= b <= lines.len(),
            lv == line_views(lines@),
            r@ == join_lines(lv.subrange(a as int, j as int)),
        decreases b - j,
    {
        let ghost old_r = r@;
        assert(lv.subrange(a as int, j + 1).drop_last() =~= lv.subrange(a as int, j as int));
        if j > a {
            r.push('\n');
        }
        r.extend_from_slice(lines[j].as_slice());
        assert(lv[j as int] == lines@[j as int]@);
        if j == a {
            assert(r@ =~= join_lines(lv.subrange(a as int, j + 1)));
        } else {
            assert(r@ =~= old_r + seq!['\n'] + lv[j as int]);
        }
        j = j + 1;
    }
    r
}

// ---------------------------------------------------------------------------
// Line classification
// ---------------------------------------------------------------------------

/// Index of the first non-whitespace character of `s` at or after `i`.
pub open spec fn ws_end(s: Seq<char>, i: int) -> int
    decreases s.len() - i,
{
    if 0 <= i < s.len() && is_ws(s[i]) {
        ws_end(s, i + 1)
    } else {
        i
    }
}

pub proof fn lemma_ws_end_bounds(s: Seq<char>, i: int)
    requires
        0 <= i <= s.len(),
    ensures
        i <= ws_end(s, i) <= s.len(),
        forall|t: int| i <= t < ws_end(s, i) ==> is_ws(#[trigger] s[t]),
        ws_end(s, i) < s.len() ==> !is_ws(s[ws_end(s, i)]),
    decreases s.len() - i,
{
    if i < s.len() && is_ws(s[i]) {
        lemma_ws_end_bounds(s, i + 1);
    }
}

/// A line without its leading whitespace (`str::trim_start`).
pub open spec fn trim_start(l: Seq<char>) -> Seq<char> {
    l.subrange(ws_end(l, 0), l.len() as int)
}

/// End of `s[..j]` once its trailing whitespace is removed.
pub open spec fn ws_start_back(s: Seq<char>, j: int) -> int
    decreases j,
{
    if 0 < j <= s.len() && is_ws(s[j - 1]) {
        ws_start_back(s, j - 1)
    } else {
        j
    }
}

/// A text without leading and trailing whitespace (`str::trim`).
pub open spec fn trim(s: Seq<char>) -> Seq<char> {
    let t = trim_start(s);
    t.subrange(0, ws_start_back(t, t.len() as int))
}

pub proof fn lemma_ws_start_back_bounds(s: Seq<char>, j: int)
    requires
        0 <= j <= s.len(),
    ensures
        0 <= ws_start_back(s, j) <= j,
    decreases j,
{
    if 0 < j && is_ws(s[j - 1]) {
        lemma_ws_start_back_bounds(s, j - 1);
    }
}

/// The text of a string slice without leading and trailing whitespace.
pub fn trim_str(s: &str) -> (r: String)
    ensures
        r@ == trim(s@),
{
    let cs = chars_of(s);
    proof {
        lemma_ws_end_bounds(cs@, 0);
    }
    let mut a: usize = 0;
    while a < cs.len() && is_whitespace(cs[a])
        invariant
            a <= cs.len(),
            ws_end(cs@, a as int) == ws_end(cs@, 0),
        decreases cs.len() - a,
    {
        a = a + 1;
    }
    let ghost t = trim_start(cs@);
    assert(t =~= cs@.subrange(a as int, cs@.len() as int));
    let mut b: usize = cs.len();
    while b > a && is_whitespace(cs[b - 1])
        invariant
            a <= b <= cs.len(),
            t == cs@.subrange(a as int, cs@.len() as int),
            ws_start_back(t, (b - a) as int) == ws_start_back(t, t.len() as int),
        decreases b,
    {
        assert(t[b - a - 1] == cs@[b - 1]);
        b = b - 1;
    }
    assert(ws_start_back(t, (b - a) as int) == (b - a) as int);
    let r = string_from_chars(&cs.as_slice()[a..b]);
    assert(r@ =~= t.subrange(0, (b - a) as int));
    r
}

/// Byte length of a line's leading whitespace.
pub open spec fn indent_bytes(l: Seq<char>) -> nat {
    byte_len(l.subrange(0, ws_end(l, 0)))
}

/// A line that opens or closes a fenced code block.
pub open spec fn is_fence(l: Seq<char>) -> bool {
    starts_with(trim_start(l), seq!['`', '`', '`'])
}

/// A line that starts with `#`.
pub open spec fn is_header_line(l: Seq<char>) -> bool {
    l.len() > 0 && l[0] == '#'
}

/// A line made of whitespace only.
pub open spec fn is_blank(l: Seq<char>) -> bool {
    trim_start(l).len() == 0
}

/// An already trimmed line that starts a list item: a bullet `- `, `* ` or
/// `+ `, or (more than two bytes long) a leading digit together with `. `
/// or `) ` somewhere in the line.
pub open spec fn is_list_marker(t: Seq<char>) -> bool {
    ||| starts_with(t, seq!['-', ' '])
    ||| starts_with(t, seq!['*', ' '])
    ||| starts_with(t, seq!['+', ' '])
    ||| (byte_len(t) > 2 && t.len() > 0 && is_digit(t[0]) && (has_pair(t, '.', ' ') || has_pair(
        t,
        ')',
        ' ',
    )))
}

/// A line that starts a list item once its indentation is removed.
pub open spec fn is_list_line(l: Seq<char>) -> bool {
    is_list_marker(trim_start(l))
}

/// Number of leading whitespace characters of a line.
pub fn leading_ws(l: &Vec<char>) -> (k: usize)
    ensures
        k == ws_end(l@, 0),
        k <= l.len(),
{
    proof {
        lemma_ws_end_bounds(l@, 0);
    }
    let mut k: usize = 0;
    while k < l.len() && is_whitespace(l[k])
        invariant
            k <= l.len(),
            ws_end(l@, k as int) == ws_end(l@, 0),
        decreases l.len() - k,
    {
        k = k + 1;
    }
    k
}

/// Whether a line opens or closes a code fence; `k` is its indentation.
pub fn line_is_fence(l: &Vec<char>, k: usize) -> (r: bool)
    requires
        k == ws_end(l@, 0),
        k <= l.len(),
    ensures
        r == is_fence(l@),
{
    let n = l.len();
    let r = n >= 3 && k <= n - 3 && l[k] == '`' && l[k + 1] == '`' && l[k + 2] == '`';
    proof {
        let t = trim_start(l@);
        if r {
            assert(t.subrange(0, 3) =~= seq!['`', '`', '`']);
        }
        if is_fence(l@) {
            assert(t.subrange(0, 3)[0] == t[0]);
            assert(t.subrange(0, 3)[1] == t[1]);
            assert(t.subrange(0, 3)[2] == t[2]);
        }
    }
    r
}

/// Whether a line starts with `#`.
pub fn line_is_header(l: &Vec<char>) -> (r: bool)
    ensures
        r == is_header_line(l@),
{
    l.len() > 0 && l[0] == '#'
}

/// Whether a trimmed line starts with the two characters `a`, `b`.
fn starts_with_pair(l: &Vec<char>, k: usize, a: char, b: char) -> (r: bool)
    requires
        k <= l.len(),
    ensures
        r == starts_with(l@.subrange(k as int, l.len() as int), seq![a, b]),
{
    let r = k < l.len() && k + 1 < l.len() && l[k] == a && l[k + 1] == b;
    proof {
        let t = l@.subrange(k as int, l.len() as int);
        if r {
            assert(t.subrange(0, 2) =~= seq![a, b]);
        }
        if starts_with(t, seq![a, b]) {
            assert(t.subrange(0, 2)[0] == t[0]);
            assert(t.subrange(0, 2)[1] == t[1]);
        }
    }
    r
}

/// Whether a line starts a list item; `k` is its indentation.
pub fn line_is_list_item(l: &Vec<char>, k: usize) -> (r: bool)
    requires
        k == ws_end(l@, 0),
        k <= l.len(),
    ensures
        r == is_list_line(l@),
{
    let ghost t = trim_start(l@);
    if starts_with_pair(l, k, '-', ' ') || starts_with_pair(l, k, '*', ' ') || starts_with_pair(
        l,
        k,
        '+',
        ' ',
    ) {
        return true;
    }
    let bytes = byte_len_of(l.as_slice(), k, l.len());
    if bytes > 2 && k < l.len() && '0' <= l[k] && l[k] <= '9' {
        assert(t[0] == l@[k as int]);
        has_pair_from(l.as_slice(), k, '.', ' ') || has_pair_from(l.as_slice(), k, ')', ' ')
    } else {
        proof {
            if k == l.len() {
                assert(t.len() == 0);
            } else {
                assert(t[0] == l@[k as int]);
            }
        }
        false
    }
}

// ---------------------------------------------------------------------------
// Blocks
// ---------------------------------------------------------------------------

/// Kinds of markdown blocks.
#[derive(Debug, Clone, Copy, PartialEq, Eq, Structural)]
pub enum BlockType {
    /// Fenced code block (```)
    CodeBlock,
    /// A line starting with #
    Header,
    /// Consecutive lines starting with -, *, + or a number
    List,
    /// Regular text
    Paragraph,
}

/// A parsed markdown block.
#[derive(Debug, Clone)]
pub struct MarkdownBlock {
    pub block_type: BlockType,
    pub content: String,
}

/// The block kinds and contents of a sequence of blocks.
pub open spec fn blocks_view(bs: Seq<MarkdownBlock>) -> Seq<(BlockType, Seq<char>)> {
    bs.map_values(|b: MarkdownBlock| (b.block_type, b.content@))
}

/// End (exclusive) of a code block whose body starts at line `i`: just after
/// the first fence line indented by at most `indent + 1` bytes, or the end
/// of the text when the block is never closed.
pub open spec fn code_end(ls: Seq<Seq<char>>, i: int, indent: nat) -> int
    decreases ls.len() - i,
{
    if 0 <= i < ls.len() {
        if is_fence(ls[i]) && indent_bytes(ls[i]) <= indent + 1 {
            i + 1
        } else {
            code_end(ls, i + 1, indent)
        }
    } else {
        i
    }
}

/// End (exclusive) of a list whose continuation starts at line `i`: list
/// items, indented non-blank lines, and blank lines directly followed by a
/// list item belong to it.
pub open spec fn list_end(ls: Seq<Seq<char>>, i: int) -> int
    decreases ls.len() - i,
{
    if 0 <= i < ls.len() {
        let l = ls[i];
        if is_list_line(l) || (ws_end(l, 0) > 0 && !is_blank(l)) {
            list_end(ls, i + 1)
        } else if is_blank(l) && i + 1 < ls.len() && is_list_line(ls[i + 1]) {
            list_end(ls, i + 1)
        } else {
            i
        }
    } else {
        i
    }
}

/// End (exclusive) of a paragraph whose continuation starts at line `i`:
/// it stops at a blank line, a header, a fence or a list item.
pub open spec fn para_end(ls: Seq<Seq<char>>, i: int) -> int
    decreases ls.len() - i,
{
    if 0 <= i < ls.len() {
        let l = ls[i];
        if is_blank(l) || is_header_line(l) || is_fence(l) || is_list_line(l) {
            i
        } else {
            para_end(ls, i + 1)
        }
    } else {
        i
    }
}

pub proof fn lemma_code_end_bounds(ls: Seq<Seq<char>>, i: int, indent: nat)
    requires
        0 <= i <= ls.len(),
    ensures
        i <= code_end(ls, i, indent) <= ls.len(),
    decreases ls.len() - i,
{
    if i < ls.len() {
        lemma_code_end_bounds(ls, i + 1, indent);
    }
}

pub proof fn lemma_list_end_bounds(ls: Seq<Seq<char>>, i: int)
    requires
        0 <= i <= ls.len(),
    ensures
        i <= list_end(ls, i) <= ls.len(),
    decreases ls.len() - i,
{
    if i < ls.len() {
        lemma_list_end_bounds(ls, i + 1);
    }
}

pub proof fn lemma_para_end_bounds(ls: Seq<Seq<char>>, i: int)
    requires
        0 <= i <= ls.len(),
    ensures
        i <= para_end(ls, i) <= ls.len(),
    decreases ls.len() - i,
{
    if i < ls.len() {
        lemma_para_end_bounds(ls, i + 1);
    }
}

/// The blocks of the lines `ls[i..]`: a fence opens a code block that runs
/// to its closing fence; a `#` line is a header; a list item opens a list;
/// any other non-blank line opens a paragraph; blank lines between blocks
/// are dropped. Each block's content is its lines joined with `'\n'`.
pub open spec fn blocks_from(ls: Seq<Seq<char>>, i: int) -> Seq<(BlockType, Seq<char>)>
    decreases ls.len() - i,
{
    if 0 <= i < ls.len() {
        let l = ls[i];
        if is_fence(l) {
            let e = code_end(ls, i + 1, indent_bytes(l));
            proof {
                lemma_code_end_bounds(ls, i + 1, indent_bytes(l));
            }
            seq![(BlockType::CodeBlock, join_lines(ls.subrange(i, e)))] + blocks_from(ls, e)
        } else if is_header_line(l) {
            seq![(BlockType::Header, l)] + blocks_from(ls, i + 1)
        } else if is_list_line(l) {
            let e = list_end(ls, i + 1);
            proof {
                lemma_list_end_bounds(ls, i + 1);
            }
            seq![(BlockType::List, join_lines(ls.subrange(i, e)))] + blocks_from(ls, e)
        } else if !is_blank(l) {
            let e = para_end(ls, i + 1);
            proof {
                lemma_para_end_bounds(ls, i + 1);
            }
            seq![(BlockType::Paragraph, join_lines(ls.subrange(i, e)))] + blocks_from(ls, e)
        } else {
            blocks_from(ls, i + 1)
        }
    } else {
        Seq::empty()
    }
}

/// The markdown blocks of a text.
pub open spec fn markdown_blocks(s: Seq<char>) -> Seq<(BlockType, Seq<char>)> {
    blocks_from(lines_of(s), 0)
}

proof fn lemma_join_lines_len(ls: Seq<Seq<char>>)
    requires
        ls.len() > 0,
    ensures
        join_lines(ls).len() >= ls[0].len(),
    decreases ls.len(),
{
    if ls.len() > 1 {
        lemma_join_lines_len(ls.drop_last());
    }
}

proof fn lemma_blocks_from_nonempty(ls: Seq<Seq<char>>, i: int, j: int)
    requires
        0 <= i <= ls.len(),
        0 <= j < blocks_from(ls, i).len(),
    ensures
        blocks_from(ls, i)[j].1.len() > 0,
    decreases ls.len() - i,
{
    if i < ls.len() {
        let l = ls[i];
        lemma_ws_end_bounds(l, 0);
        if is_fence(l) {
            let e = code_end(ls, i + 1, indent_bytes(l));
            lemma_code_end_bounds(ls, i + 1, indent_bytes(l));
            if j == 0 {
                lemma_join_lines_len(ls.subrange(i, e));
            } else {
                lemma_blocks_from_nonempty(ls, e, j - 1);
            }
        } else if is_header_line(l) {
            if j > 0 {
                lemma_blocks_from_nonempty(ls, i + 1, j - 1);
            }
        } else if is_list_line(l) {
            let e = list_end(ls, i + 1);
            lemma_list_end_bounds(ls, i + 1);
            if j == 0 {
                lemma_join_lines_len(ls.subrange(i, e));
            } else {
                lemma_blocks_from_nonempty(ls, e, j - 1);
            }
        } else if !is_blank(l) {
            let e = para_end(ls, i + 1);
            lemma_para_end_bounds(ls, i + 1);
            if j == 0 {
                lemma_join_lines_len(ls.subrange(i, e));
            } else {
                lemma_blocks_from_nonempty(ls, e, j - 1);
            }
        } else {
            lemma_blocks_from_nonempty(ls, i + 1, j);
        }
    }
}

/// No markdown block is empty: each holds at least its first line, which is
/// never blank.
pub proof fn markdown_blocks_nonempty(s: Seq<char>, j: int)
    requires
        0 <= j < markdown_blocks(s).len(),
    ensures
        markdown_blocks(s)[j].1.len() > 0,
{
    lemma_blocks_from_nonempty(lines_of(s), 0, j);
}

/// No line after the first of lines `a..b` is a list item.
pub open spec fn no_list_item_after_first(ls: Seq<Seq<char>>, a: int, b: int) -> bool {
    forall|k: int| a < k < b ==> !is_list_line(#[trigger] ls[k])
}

/// `x` is lines `a..b` of `ls` joined, for some non-empty range in which no
/// line after the first is a list item.
pub open spec fn list_free_lines(ls: Seq<Seq<char>>, x: Seq<char>) -> bool {
    exists|a: int, b: int|
        0 <= a < b <= ls.len() && #[trigger] no_list_item_after_first(ls, a, b) && x
            == join_lines(ls.subrange(a, b))
}

proof fn lemma_para_end_no_list(ls: Seq<Seq<char>>, i: int)
    requires
        0 <= i <= ls.len(),
    ensures
        forall|k: int| i <= k < para_end(ls, i) ==> !is_list_line(#[trigger] ls[k]),
    decreases ls.len() - i,
{
    if i < ls.len() {
        lemma_para_end_no_list(ls, i + 1);
    }
}

proof fn lemma_blocks_from_paragraphs(ls: Seq<Seq<char>>, i: int, j: int)
    requires
        0 <= i <= ls.len(),
        0 <= j < blocks_from(ls, i).len(),
        blocks_from(ls, i)[j].0 == BlockType::Paragraph,
    ensures
        list_free_lines(ls, blocks_from(ls, i)[j].1),
    decreases ls.len() - i,
{
    if i < ls.len() {
        let l = ls[i];
        if is_fence(l) {
            let e = code_end(ls, i + 1, indent_bytes(l));
            lemma_code_end_bounds(ls, i + 1, indent_bytes(l));
            lemma_blocks_from_paragraphs(ls, e, j - 1);
        } else if is_header_line(l) {
            lemma_blocks_from_paragraphs(ls, i + 1, j - 1);
        } else if is_list_line(l) {
            let e = list_end(ls, i + 1);
            lemma_list_end_bounds(ls, i + 1);
            lemma_blocks_from_paragraphs(ls, e, j - 1);
        } else if !is_blank(l) {
            let e = para_end(ls, i + 1);
            lemma_para_end_bounds(ls, i + 1);
            if j == 0 {
                lemma_para_end_no_list(ls, i + 1);
                assert(no_list_item_after_first(ls, i, e));
            } else {
                lemma_blocks_from_paragraphs(ls, e, j - 1);
            }
        } else {
            lemma_blocks_from_paragraphs(ls, i + 1, j);
        }
    }
}

/// A list item never continues a paragraph: every paragraph block is a run
/// of lines of the text in which no line after the first is a list item
/// (such a line starts a list instead).
pub proof fn paragraphs_hold_no_list_items(s: Seq<char>, j: int)
    requires
        0 <= j < markdown_blocks(s).len(),
        markdown_blocks(s)[j].0 == BlockType::Paragraph,
    ensures
        list_free_lines(lines_of(s), markdown_blocks(s)[j].1),
{
    lemma_blocks_from_paragraphs(lines_of(s), 0, j);
}

fn code_block_end(lines: &Vec<Vec<char>>, start: usize, indent: u128) -> (e: usize)
    requires
        start <= lines.len(),
    ensures
        e == code_end(line_views(lines@), start as int, indent as nat),
{
    let ghost lv = line_views(lines@);
    let mut j = start;
    while j < lines.len()
        invariant
            start <= j <= lines.len(),
            lv == line_views(lines@),
            code_end(lv, start as int, indent as nat) == code_end(lv, j as int, indent as nat),
        decreases lines.len() - j,
    {
        let l = &lines[j];
        assert(lv[j as int] == l@);
        let k = leading_ws(l);
        if line_is_fence(l, k) {
            let ind = byte_len_of(l.as_slice(), 0, k);
            if ind == 0 || ind - 1 <= indent {
                return j + 1;
            }
        }
        j = j + 1;
    }
    j
}

fn list_block_end(lines: &Vec<Vec<char>>, start: usize) -> (e: usize)
    requires
        start <= lines.len(),
    ensures
        e == list_end(line_views(lines@), start as int),
{
    let ghost lv = line_views(lines@);
    let mut j = start;
    while j < lines.len()
        invariant
            start <= j <= lines.len(),
            lv == line_views(lines@),
            list_end(lv, start as int) == list_end(lv, j as int),
        decreases lines.len() - j,
    {
        let l = &lines[j];
        assert(lv[j as int] == l@);
        let k = leading_ws(l);
        let blank = k == l.len();
        if line_is_list_item(l, k) || (k > 0 && !blank) {
            j = j + 1;
        } else if blank && j + 1 < lines.len() {
            let next = &lines[j + 1];
            assert(lv[j + 1] == next@);
            let nk = leading_ws(next);
            if line_is_list_item(next, nk) {
                j = j + 1;
            } else {
                return j;
            }
        } else {
            return j;
        }
    }
    j
}

fn para_block_end(lines: &Vec<Vec<char>>, start: usize) -> (e: usize)
    requires
        start <= lines.len(),
    ensures
        e == para_end(line_views(lines@), start as int),
{
    let ghost lv = line_views(lines@);
    let mut j = start;
    while j < lines.len()
        invariant
            start <= j <= lines.len(),
            lv == line_views(lines@),
            para_end(lv, start as int) == para_end(lv, j as int),
        decreases lines.len() - j,
    {
        let l = &lines[j];
        assert(lv[j as int] == l@);
        let k = leading_ws(l);
        if k == l.len() || line_is_header(l) || line_is_fence(l, k) || line_is_list_item(l, k) {
            return j;
        }
        j = j + 1;
    }
    j
}

/// Groups lines into markdown blocks.
pub fn blocks_of_lines(lines: &Vec<Vec<char>>) -> (blocks: Vec<MarkdownBlock>)
    ensures
        blocks_view(blocks@) == blocks_from(line_views(lines@), 0),
{
    let ghost lv = line_views(lines@);
    let mut blocks: Vec<MarkdownBlock> = Vec::new();
    let mut i: usize = 0;
    while i < lines.len()
        invariant
            i <= lines.len(),
            lv == line_views(lines@),
            blocks_view(blocks@) + blocks_from(lv, i as int) == blocks_from(lv, 0),
        decreases lines.len() - i,
    {
        let l = &lines[i];
        assert(lv[i as int] == l@);
        let k = leading_ws(l);
        let ghost old_blocks = blocks@;
        if line_is_fence(l, k) {
            let ind = byte_len_of(l.as_slice(), 0, k);
            let e = code_block_end(lines, i + 1, ind);
            proof {
                lemma_code_end_bounds(lv, i + 1, ind as nat);
            }
            let content = join_line_range(lines, i, e);
            let b = MarkdownBlock {
                block_type: BlockType::CodeBlock,
                content: string_from_chars(content.as_slice()),
            };
            blocks.push(b);
            assert(blocks_view(blocks@) =~= blocks_view(old_blocks).push(
                (BlockType::CodeBlock, join_lines(lv.subrange(i as int, e as int))),
            ));
            assert(blocks_view(blocks@) + blocks_from(lv, e as int) =~= blocks_view(old_blocks)
                + blocks_from(lv, i as int));
            i = e;
        } else if line_is_header(l) {
            let content = string_from_chars(l.as_slice());
            let b = MarkdownBlock { block_type: BlockType::Header, content };
            blocks.push(b);
            assert(blocks_view(blocks@) =~= blocks_view(old_blocks).push(
                (BlockType::Header, lv[i as int]),
            ));
            assert(blocks_view(blocks@) + blocks_from(lv, i + 1) =~= blocks_view(old_blocks)
                + blocks_from(lv, i as int));
            i = i + 1;
        } else if line_is_list_item(l, k) {
            let e = list_block_end(lines, i + 1);
            proof {
                lemma_list_end_bounds(lv, i + 1);
            }
            let content = join_line_range(lines, i, e);
            let b = MarkdownBlock {
                block_type: BlockType::List,
                content: string_from_chars(content.as_slice()),
            };
            blocks.push(b);
            assert(blocks_view(blocks@) =~= blocks_view(old_blocks).push(
                (BlockType::List, join_lines(lv.subrange(i as int, e as int))),
            ));
            assert(blocks_view(blocks@) + blocks_from(lv, e as int) =~= blocks_view(old_blocks)
                + blocks_from(lv, i as int));
            i = e;
        } else if k < l.len() {
            let e = para_block_end(lines, i + 1);
            proof {
                lemma_para_end_bounds(lv, i + 1);
            }
            let content = join_line_range(lines, i, e);
            let b = MarkdownBlock {
                block_type: BlockType::Paragraph,
                content: string_from_chars(content.as_slice()),
            };
            blocks.push(b);
            assert(blocks_view(blocks@) =~= blocks_view(old_blocks).push(
                (BlockType::Paragraph, join_lines(lv.subrange(i as int, e as int))),
            ));
            assert(blocks_view(blocks@) + blocks_from(lv, e as int) =~= blocks_view(old_blocks)
                + blocks_from(lv, i as int));
            i = e;
        } else {
            i = i + 1;
        }
    }
    assert(blocks_from(lv, i as int) =~= Seq::<(BlockType, Seq<char>)>::empty());
    assert(blocks_view(blocks@) =~= blocks_view(blocks@) + blocks_from(lv, i as int));
    blocks
}

/// Parses content into markdown blocks.
pub fn parse_markdown_blocks(content: &str) -> (blocks: Vec<MarkdownBlock>)
    ensures
        blocks_view(blocks@) == markdown_blocks(content@),
{
    let chars = chars_of(content);
    let lines = split_lines(&chars);
    blocks_of_lines(&lines)
}

} // verus!
