# anytomd

Converts documents (DOCX, PPTX, XLSX, HTML, CSV, JSON, Jupyter notebooks,
XML, code, images and plain text) to Markdown, with a plain-text twin of
the output, as a library verified with Verus.

- `src/` is the verified library. Each converter's result is stated as a
  spec function of the input bytes; the parsers are folds over the token
  streams that the outside readers (quick-xml, zip, calamine, scraper,
  serde_json, csv, encoding_rs) produce, named by trusted items.
- `src/lib.rs` dispatches by extension (`convert_bytes`) and detects the
  format of a file from its magic bytes and name (`convert_file_bytes`).
- `tests/` runs the library on concrete inputs.
- `app/` is the command line: it reads the file, calls the library, and
  optionally asks the Gemini API for image descriptions.
