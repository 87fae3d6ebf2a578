# lib3mf_core

A reader and checker for 3D Manufacturing Format (3MF) packages whose core is
written in Verus: every function under `src/` carries a `requires`/`ensures`
contract that Verus proves.

## Layout

- `src/model/` — the document model (resources with their global ID
  namespace, meshes, materials, build items, metadata), the component
  resolver, mesh repair and statistics.
- `src/parser/` — the model XML scanner, the streaming reader that hands the
  parts of a model to a `ModelVisitor` without building it, and the slicer
  configuration readers, as functions on text with exact contracts.
- `src/validation/` — the four validation levels (Minimal, Standard, Strict,
  Paranoid) and their findings, including the reference-cycle searches.
- `src/archive/` — OPC relationships and the discovery of the root model part
  through the `ArchiveReader` trait.
- `src/crypto/` — secure-content handling: key parsing, AES-GCM sealing and
  opening, signature checks.
- `src/utils/` — model comparison and hardware description.
- `tests/` — ordinary Rust tests of the library.
- `app/` — the unverified shell: zip I/O, floating-point geometry measures,
  serialisation, key files.

Calls into outside crates (quick-xml, aes-gcm, rsa, sha2, base64, uuid, ...)
go through small trusted wrappers whose doc comments say what each contract
claims of the outside code.

Laws that relate several functions stand as public proof functions, for
example `law_levels_nest` (a higher validation level keeps the findings of a
lower one), `law_compare_with_itself`, `law_added_mirrors_removed` and
`lemma_hex_round_trip`.
