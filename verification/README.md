# next_build

The app-entry bookkeeping of a Next.js production build, verified with Verus.

- `src/app_entries.rs`: which entries an app directory yields (`get_app_entries`),
  the chunk items of the shared client runtime chunk (`get_app_shared_client_chunk`),
  the server chunk path of an entry (`rsc_chunk_path`), and what the build records
  of the entries' chunks (`check_app_entries_chunks_inputs`, `compute_app_entries_chunks`),
  with lemmas on what the manifests end up holding.
- `src/manifest.rs`: the build manifests and `StringMap`, the insertion-ordered string map
  their page tables are made of.
- `src/css_client_reference.rs`: the module rule for CSS client references and the
  module type it installs.
- `app/`: the turbo-tasks functions that await, make contexts and chunks, and call the
  library. They need the turbo-tasks and turbopack crates and the sibling modules of the
  build, which this package does not have, so `app/` does not compile here.
