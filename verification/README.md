# atomic_kb

The logic of the Atomic knowledge base, verified with Verus.

- `src/` is the verified library:
  - `markdown.rs`, `chunking.rs`, `chunking_laws.rs`: markdown-aware
    chunking of atom content for embeddings, over the cl100k_base tokenizer
    (`tokenizer.rs`), with the laws that code blocks and small blocks are
    never split, that no chunk outside a large code block passes 3000
    tokens before overlap, that small chunks join a neighbour where they
    can, and that overlap only extends chunks;
  - `provider_error.rs`: AI provider errors, their texts and retry rules,
    and UTF-8-safe truncation;
  - `mcp.rs`, `mcp_types.rs`, `models.rs`: how the MCP tools shape their
    answers (snippets, pagination, listings, tag trees, limits);
  - `routes.rs`: request bodies and the decisions of the HTTP routes;
  - `pipeline_task.rs`: the draft pipeline scheduled task;
  - `longmem.rs`: the LongMemEval benchmark (session atoms, evidence
    retrieval measures, pipeline waiting, provider configuration);
  - `text.rs`: character-level string utilities.
- `tests/` runs the library on concrete inputs.
- `app/` holds what cannot be verified: serde and JSON-schema copies of the
  library's types, loading the benchmark data set from disk, the
  floating-point benchmark metrics, and the HTTP request of the OpenRouter
  connection test.
