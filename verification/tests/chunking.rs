use atomic_kb::chunking::{
    apply_overlap, chunk_content, count_tokens, get_first_n_tokens, hard_split_by_tokens,
    merge_blocks_into_chunks, merge_small_chunks, split_block_by_sentences,
};
use atomic_kb::markdown::{parse_markdown_blocks, BlockType, MarkdownBlock};

#[test]
fn test_token_counting() {
    let text = "Hello, world!";
    let tokens = count_tokens(text);
    assert!(tokens > 0);
    assert!(tokens < 10); // Should be ~4 tokens
}

#[test]
fn test_empty_content() {
    let chunks = chunk_content("");
    assert!(chunks.is_empty());
}

#[test]
fn test_simple_paragraphs() {
    let content = "First paragraph with enough content to stand alone.\n\nSecond paragraph also with content.";
    let chunks = chunk_content(content);
    // Should be one chunk since both are small
    assert!(!chunks.is_empty());
}

#[test]
fn test_code_block_not_split() {
    let content = r#"Some intro text.

```rust
fn main() {
    println!("Hello, world!");
    // This is a code block
    // It should not be split
    for i in 0..100 {
        println!("{}", i);
    }
}
```

Some outro text."#;
    let chunks = chunk_content(content);

    let code_chunk = chunks.iter().find(|c| c.contains("fn main()"));
    assert!(code_chunk.is_some(), "Code block should be in output");

    let code = code_chunk.unwrap();
    assert!(code.contains("```rust"), "Code block should have opening fence");
    assert!(code.contains("for i in 0..100"), "Code block should be complete");
}

#[test]
fn test_header_creates_boundary() {
    let content = r#"# First Section

This is content under the first section with enough text to be meaningful.

# Second Section

This is content under the second section with different information."#;

    let blocks = parse_markdown_blocks(content);

    let header_count = blocks.iter().filter(|b| b.block_type == BlockType::Header).count();
    assert_eq!(header_count, 2, "Should identify 2 headers");
}

#[test]
fn test_list_kept_together() {
    let content = r#"Here are some items:

- First item
- Second item
- Third item

After the list."#;

    let blocks = parse_markdown_blocks(content);

    let list_block = blocks.iter().find(|b| b.block_type == BlockType::List);
    assert!(list_block.is_some(), "Should identify list block");

    let list = list_block.unwrap();
    assert!(list.content.contains("First item"));
    assert!(list.content.contains("Third item"));
}

#[test]
fn test_overlap_applied() {
    let long_para = "This is a test sentence with enough content. ".repeat(200);
    let content = format!("{}\n\n{}", long_para, "Final paragraph with unique content.");

    let chunks = chunk_content(&content);

    if chunks.len() > 1 {
        let first = &chunks[0];
        assert!(first.len() > 0);
    }
}

#[test]
fn test_numbered_list() {
    let content = r#"Steps to follow:

1. First step
2. Second step
3. Third step

Done!"#;

    let blocks = parse_markdown_blocks(content);
    let list_block = blocks.iter().find(|b| b.block_type == BlockType::List);
    assert!(list_block.is_some(), "Should identify numbered list");
}

#[test]
fn test_nested_code_in_list() {
    let content = r#"- Item with code:
  ```
  code here
  ```
- Next item"#;

    let blocks = parse_markdown_blocks(content);
    assert!(!blocks.is_empty());
}

#[test]
fn test_small_chunks_merged() {
    let content = "Title\n\nSubtitle\n\nA longer paragraph with actual meaningful content that should stand alone.";
    let chunks = chunk_content(content);

    assert!(!chunks.is_empty());
    assert!(chunks[0].contains("Title"));
}

#[test]
fn test_get_first_n_tokens() {
    let text = "Hello world, this is a test sentence.";
    let first = get_first_n_tokens(text, 3);
    assert!(!first.is_empty());
    assert!(first.len() < text.len());
}

#[test]
fn test_preserves_whitespace_in_code() {
    let content = r#"```python
def foo():
    if True:
        print("indented")
```"#;

    let chunks = chunk_content(content);
    assert!(!chunks.is_empty());

    let chunk = &chunks[0];
    assert!(chunk.contains("    if True:"));
    assert!(chunk.contains("        print"));
}

#[test]
fn test_multiple_code_blocks() {
    let content = r#"First code:

```js
console.log("first");
```

Second code:

```python
print("second")
```"#;

    let blocks = parse_markdown_blocks(content);
    let code_blocks: Vec<_> = blocks
        .iter()
        .filter(|b| b.block_type == BlockType::CodeBlock)
        .collect();

    assert_eq!(code_blocks.len(), 2, "Should find 2 code blocks");
}

#[test]
fn test_sentence_splitting() {
    let long_text = "This is sentence one. This is sentence two! Is this sentence three? Yes it is. ".repeat(50);
    let splits = split_block_by_sentences(&long_text, 500);

    assert!(splits.len() > 1);

    for (i, split) in splits.iter().enumerate() {
        if i < splits.len() - 1 {
            let trimmed = split.trim();
            assert!(
                trimmed.ends_with('.') || trimmed.ends_with('!') || trimmed.ends_with('?'),
                "Split {} should end with sentence punctuation: '{}'",
                i,
                &trimmed[trimmed.len().saturating_sub(20)..]
            );
        }
    }
}

// ---------------------------------------------------------------------------
// Further cases
// ---------------------------------------------------------------------------

fn block(block_type: BlockType, content: &str) -> MarkdownBlock {
    MarkdownBlock { block_type, content: content.to_string() }
}

fn kinds(content: &str) -> Vec<(BlockType, String)> {
    parse_markdown_blocks(content)
        .into_iter()
        .map(|b| (b.block_type, b.content))
        .collect()
}

#[test]
fn blocks_of_mixed_markdown_in_order() {
    let content = "# Title\nintro line\nsecond line\n\n- a\n  more\n\n- b\nafter\n\n```\ncode\n```\n";
    assert_eq!(
        kinds(content),
        vec![
            (BlockType::Header, "# Title".to_string()),
            (BlockType::Paragraph, "intro line\nsecond line".to_string()),
            (BlockType::List, "- a\n  more\n\n- b".to_string()),
            (BlockType::Paragraph, "after".to_string()),
            (BlockType::CodeBlock, "```\ncode\n```".to_string()),
        ]
    );
}

#[test]
fn unclosed_fence_runs_to_end() {
    assert_eq!(
        kinds("text\n```\nline one\nline two"),
        vec![
            (BlockType::Paragraph, "text".to_string()),
            (BlockType::CodeBlock, "```\nline one\nline two".to_string()),
        ]
    );
}

#[test]
fn crlf_lines_lose_their_carriage_return() {
    assert_eq!(
        kinds("one\r\ntwo\r\n\r\nthree"),
        vec![
            (BlockType::Paragraph, "one\ntwo".to_string()),
            (BlockType::Paragraph, "three".to_string()),
        ]
    );
}

#[test]
fn blank_only_content_has_no_blocks_or_chunks() {
    assert!(parse_markdown_blocks("  \n\t\n\u{3000}\n").is_empty());
    assert!(chunk_content("  \n\n").is_empty());
}

#[test]
fn digit_line_without_marker_is_a_paragraph() {
    assert_eq!(kinds("2024 was a year"), vec![(BlockType::Paragraph, "2024 was a year".to_string())]);
    assert_eq!(kinds("1) go"), vec![(BlockType::List, "1) go".to_string())]);
}

#[test]
fn single_small_chunk_has_no_overlap() {
    let chunks = chunk_content("Just one short paragraph.");
    assert_eq!(chunks, vec!["Just one short paragraph.".to_string()]);
}

#[test]
fn small_paragraphs_join_with_blank_line() {
    let chunks = chunk_content("alpha\n\nbeta");
    assert_eq!(chunks, vec!["alpha\n\nbeta".to_string()]);
}

#[test]
fn overlap_appends_next_chunk_prefix() {
    let chunks = vec!["first".to_string(), "second part".to_string()];
    let out = apply_overlap(chunks, 1);
    assert_eq!(out.len(), 2);
    assert_eq!(out[0], format!("first\n\n{}", get_first_n_tokens("second part", 1)));
    assert_eq!(out[1], "second part");
    assert_eq!(apply_overlap(vec!["a".to_string(), "b".to_string()], 0), vec!["a", "b"]);
}

#[test]
fn first_n_tokens_decodes_a_true_prefix() {
    let text = "Hello world, this is a test sentence.";
    let first = get_first_n_tokens(text, 3);
    assert!(text.starts_with(&first));
    assert_ne!(first, text);
    assert_eq!(get_first_n_tokens(text, 1000), text);
}

#[test]
fn hard_split_keeps_short_text_and_cuts_long_text() {
    assert_eq!(hard_split_by_tokens("tiny", 10), vec!["tiny".to_string()]);
    let long = "word ".repeat(50);
    let parts = hard_split_by_tokens(&long, 10);
    assert!(parts.len() >= 5);
    assert_eq!(parts.concat(), long);
    for p in &parts {
        assert!(count_tokens(p) <= 10);
    }
}

#[test]
fn sentences_accumulate_until_the_limit() {
    let splits = split_block_by_sentences("One. Two. Three.", 1000);
    assert_eq!(splits, vec!["One. Two. Three.".to_string()]);
}

#[test]
fn big_code_block_is_its_own_chunk() {
    let code = format!("```\n{}```", "let x = 1;\n".repeat(1000));
    let chunks = merge_blocks_into_chunks(vec![
        block(BlockType::Paragraph, "before"),
        block(BlockType::CodeBlock, &code),
        block(BlockType::Paragraph, "after"),
    ]);
    assert_eq!(chunks, vec!["before".to_string(), code.clone(), "after".to_string()]);
}

#[test]
fn header_closes_large_enough_chunk() {
    let para = "lorem ipsum dolor sit amet ".repeat(30);
    assert!(count_tokens(&para) >= 100);
    let chunks = merge_blocks_into_chunks(vec![
        block(BlockType::Paragraph, &para),
        block(BlockType::Header, "# Next"),
        block(BlockType::Paragraph, "tail"),
    ]);
    assert_eq!(chunks, vec![para.clone(), "# Next\n\ntail".to_string()]);
}

#[test]
fn small_chunk_merges_into_previous() {
    let big = "lorem ipsum dolor sit amet ".repeat(30);
    let out = merge_small_chunks(vec![big.clone(), "tiny".to_string()]);
    assert_eq!(out, vec![format!("{}\n\ntiny", big)]);
    assert!(merge_small_chunks(vec![]).is_empty());
}

#[test]
fn empty_text_hard_splits_with_zero_limit() {
    assert_eq!(hard_split_by_tokens("", 0), vec!["".to_string()]);
}

#[test]
fn small_first_chunk_joins_the_next_one() {
    let big = "hello ".repeat(2300);
    let big_tokens = count_tokens(&big);
    assert!(big_tokens > 2000 && big_tokens < 2800);
    let merged = merge_small_chunks(vec!["Tiny note.".to_string(), big.clone()]);
    assert_eq!(merged, vec![format!("Tiny note.\n\n{}", big)]);
}

#[test]
fn prose_chunks_stay_within_the_maximum_before_overlap() {
    let para = "This sentence is part of a long paragraph. ".repeat(40);
    let content: String = (0..40).map(|i| format!("## Part {}\n\n{}\n\n", i, para)).collect();
    let pre = merge_small_chunks(merge_blocks_into_chunks(parse_markdown_blocks(&content)));
    assert!(pre.len() > 1);
    for c in &pre {
        assert!(count_tokens(c) <= 3000, "chunk of {} tokens", count_tokens(c));
    }
    let chunks = chunk_content(&content);
    assert_eq!(chunks.len(), pre.len());
    for i in 0..chunks.len() - 1 {
        assert_eq!(chunks[i], format!("{}\n\n{}", pre[i], get_first_n_tokens(&pre[i + 1], 200)));
    }
    assert_eq!(chunks[chunks.len() - 1], pre[pre.len() - 1]);
}

#[test]
fn oversized_sentence_is_cut_by_tokens() {
    let blob = "x".repeat(30000);
    let chunks = merge_blocks_into_chunks(vec![MarkdownBlock {
        block_type: BlockType::Paragraph,
        content: blob.clone(),
    }]);
    assert!(chunks.len() > 1);
    assert_eq!(chunks.concat(), blob);
    for c in &chunks {
        assert!(count_tokens(c) <= 3000);
    }
}

#[test]
fn small_paragraph_header_and_paragraph_share_a_chunk() {
    let blocks = vec![
        MarkdownBlock { block_type: BlockType::Paragraph, content: "Short intro.".to_string() },
        MarkdownBlock { block_type: BlockType::Header, content: "## Next".to_string() },
        MarkdownBlock { block_type: BlockType::Paragraph, content: "More text here.".to_string() },
    ];
    assert_eq!(
        merge_blocks_into_chunks(blocks),
        vec!["Short intro.\n\n## Next\n\nMore text here.".to_string()]
    );
}

#[test]
fn big_code_block_still_gets_overlap() {
    let code = format!("```\n{}\n```", "let x = 1;\n".repeat(1500));
    assert!(count_tokens(&code) > 3000);
    let out = apply_overlap(vec![code.clone(), "tail paragraph".to_string()], 200);
    assert_eq!(out[0], format!("{}\n\ntail paragraph", code));
    assert_eq!(out[1], "tail paragraph");
}

#[test]
fn empty_block_splits_with_zero_limit() {
    assert!(split_block_by_sentences("", 0).is_empty());
}
