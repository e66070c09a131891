# html2md

Converts web pages to clean Markdown. The conversion itself and the
decisions of the command-line program (which URL, which route, whether to
render in a browser, which page to convert, how to report a failed request)
are a library verified with Verus; `app/` is the program around it (command
line, HTTP, headless Chrome, output).

```rust
use html2md::Converter;

let converter = Converter::new("https://example.com")?;
let markdown = converter.convert(&html_string)?;
```

## Layout

- `src/text.rs` – character sequences: trimming, searching, words, lines, UTF-8 length.
- `src/pattern.rs`, `src/urls.rs`, `src/dom.rs` – the calls into `regex`, `url` and
  `scraper`, and the document tree the converter walks.
- `src/content.rs` – the text of an element, of a heading, of a table cell; the
  language of a code block.
- `src/converter.rs` – clean-up of the page, choice of the content root, extraction
  of Markdown items.
- `src/dedup.rs` – deduplication and layout of the items, with its laws.
- `src/pipeline.rs` – URL validation, routing, the browser decision, tweets.
- `src/http.rs`, `src/browser.rs`, `src/cli.rs`, `src/error.rs` – fetch results,
  rendering checks, options and errors.
- `app/` – `main`, `clap`, `reqwest`, `headless_chrome`, `thiserror`.
