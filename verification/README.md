# vsgrep

The verified core of `vsgrep`, a ripgrep-like local semantic (vector) search
tool, written in Verus.

- `src/` is the library that Verus verifies:
  - `lines` — splitting text into lines (LF, CRLF and mixed endings), joining
    them back, Unicode whitespace;
  - `chunk` — the sliding-window chunker and its configuration; `chunk_laws` —
    properties of the windows and chunks that hold for every input;
  - `cli` — the command-line model and the checks the parser cannot express;
  - `walk` — setting up the file walk (roots, file types, globs) on top of the
    `ignore` crate;
  - `embed` — the integer and text side of embedding: prefixes, batching,
    tokenizer setup (padding and truncation), tokenization and token layout;
  - `std_types`, `text` — the std types and conversions the library relies on.
- `app/` is the `vsgrep` program: argument parsing with `clap`, file-system
  access, and the ONNX runtime with its floating-point pooling.
- `tests/` exercises the library.
