# klotho

Verified integer kernel of the Klotho engine, written in Verus.

- `src/` is the library. Every function there carries a `requires`/`ensures`
  contract that Verus proves: fixed-point space and rotation, collision and
  cast queries, the character solve, contact tracks and clip certification,
  artifact headers, placement chunks, the whole-title runtime plan and the
  `.warp` header, diagnostics, feel and input remapping, interest classes,
  Mind program validation, package and lock checks.
- Spec functions name what each result is; laws that span functions
  (round trips of chunks, plans and headers; orderings; coverage kept by
  rebinding) are public proof functions.
- The outside crate `blake3` is reached through one trusted wrapper in
  `src/hash.rs`; UTF-8 decoding and one-character strings go through two
  small std wrappers.
- `app/` holds what cannot be verified: file I/O for placement chunks and
  package install/repair/uninstall, the budget environment flag, and the RON
  install record (serde).
- `tests/` exercises the library from outside.
