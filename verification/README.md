# templify

Templify edits document templates in the browser (text with Markdown-like
styles, inline images and data placeholders), keeps them on a small server,
checks CSV files that feed the placeholders, and renders PDFs, one per CSV
row when merging.

- `src/` is the library, verified with Verus: the editor's state and
  actions (`editor`, `cursor`, `preview`, `csv_source`, `tags`, `ui`), the CSV
  checks and data-source bookkeeping (`csv_check`, `number`, `datasource`),
  the document layout and merge rules (`styles`, `layout`, `merge`), the job
  table and template storage rules (`server`), the shared model (`model`),
  text helpers (`text`) and the calls into outside crates (`encoding`).
- `app/` is the server program around it: HTTP routes, SQLite, files, the
  background jobs and PDF rendering.
- `tests/` exercise the library on concrete values.
