# komga_infra

The infrastructure layer of a comic and e-book library server, with its decisions proved
in Verus.

- `src/` is the verified library. Verus checks all of it; every public function, and most
  private helpers, carry `requires`/`ensures` contracts. It covers library scanning (the
  depth-first walk that decides which directories are series, with paths held as the file
  system's bytes; which files are books or sidecars; how ids are derived; what a scan hands
  to persistence and which follow-up tasks it plans), ComicInfo.xml and EPUB package
  parsing into metadata patches, Mylar `series.json` metadata, restoring deleted books and
  series by file hash, import planning (destination names, sidecars, upgrades), stored ZIP
  archive assembly, scan scheduling, thumbnail selection housekeeping, library validation,
  the author and tag listing queries with accent-insensitive author search, the id and
  token generators of the identity layer, and the retry decision of file removal. Calls
  into `sha2`, `url`, `unicode-normalization`, the standard library's hashers and its
  UTF-8 decoding sit behind small trusted wrappers whose contracts say what those crates
  document. The calls into `quick-xml` are gathered in `src/xml_events.rs`: each event a
  reader reports is tagged with the document, the trim setting and its position, and what
  `quick-xml` reports of it is named as a function of those values, so that the parsers
  built on the event list (`src/xml.rs`) state their results over the document's bytes.
- `src/laws.rs` and the `law_` proof functions elsewhere state properties that hold across
  operations.
- `app/` is ordinary Rust around the library: listing directories for the walk, reading
  ZIP and RAR archives and JSON files, and handing plain values to the library.
- `tests/` runs the library on concrete inputs.
