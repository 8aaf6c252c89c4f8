# qps

Fetches the previous year question papers, model question papers and
answer keys of the CMA Intermediate papers from the ICMAI upload area, and
writes Markdown release notes that link the fetched files.

- `src/` is the library, verified with Verus: the data tables (papers,
  sessions, upload places, address overrides, answer keys), the file name
  grammar, the download plan of a paper, the command line reading, the
  counting of outcomes, and the release notes.
- `app/main.rs` is the program: it reads the command line, fetches each
  planned file over HTTP, prints progress and writes the notes to disk.
