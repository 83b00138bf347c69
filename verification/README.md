# share_one_list

The verified core of a desktop client for OneDrive and SharePoint: sign-in
and token refresh, browsing and caching drive listings, downloads and
uploads in chunks, a WebDAV view of a drive, a catalog of visited drive
items, and an AI chat grounded in drive files.

- `src/` is the library, written in Verus. Every function there carries a
  contract that Verus proves: the request URLs and bodies, retry and
  backoff decisions, the download and upload state machines, the listing
  cache (bounded, least recently used first), text extraction from Office
  files, the server-sent event reader, and the catalog's merge rules.
  Calls into outside crates (URL parsing, base64, hashing, zip, XML, the
  credential store, the clock) go through small trusted wrappers whose
  contracts state what those crates document.
- `tests/` runs the library on concrete values.
- `app/` is the ordinary Rust around it: the JSON shapes, the files and
  SQLite databases on disk, and PDF reading, which has to contain the
  panics of the PDF text extractor.
