# baegun

Converts PDF books (through Mistral OCR) and CBZ comic archives to EPUB.

The crate is a Verus library: the functions under `src/` are verified by
Verus against their `requires`/`ensures` contracts. Calls into other crates
(regular expressions, Markdown rendering, base64, image decoders, XML reading,
hashing, JSON, timestamps, `std::path`) go through small trusted wrappers whose
contracts name or state what the call returns.

- `src/normalize.rs`: OCR pages to chapters: header/footer stripping, table and
  image placeholders, chapter boundaries, slugs, XHTML documents.
- `src/metadata.rs`: PDF Info/XMP metadata, cleaning, and the precedence of
  settings, PDF metadata and generated metadata.
- `src/epub.rs`: the package document, navigation, cover and archive layout.
- `src/cbz.rs`, `src/comic_info.rs`, `src/natural.rs`: archive safety limits,
  entry classification, image checks, ComicInfo.xml, natural page order and the
  fixed-layout book.
- `src/pipeline.rs`: source detection, the course of a conversion and its
  progress reports.
- `src/mistral.rs`, `src/cache.rs`, `src/validate.rs`, `src/batch.rs`,
  `src/commands.rs`: service replies and retries, cache keys, epubcheck
  verdicts, batch bookkeeping and desktop requests.

`app/` is the command-line program: argument parsing, files, HTTP and the
epubcheck process, driving the library's decisions.
