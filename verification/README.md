# core_web

The web (npm) ecosystem adapter's core, written in Verus: registry URL
policy, SRI integrity checking, the metadata and tarball caches, lockfile
scoping, supply-chain guards (release-age quarantine, no-downgrade),
lifecycle-script policy, bin linking decisions and the install plan.

Layout:

- `src/` — the verified library. Every public function states what it
  returns in its `ensures`; laws that relate several functions are public
  proof functions named `law_*`. Calls into outside crates (`sha2`,
  `base64`, `url`, `chrono`, `flate2`/`tar`, `lru`) and into the clock go
  through small trusted wrappers whose contracts are documented where they
  are declared.
- `app/` — the process side: reading the environment and the file system,
  JSON conversion with `serde_json`, running scripts, retry sleeps. It
  gathers inputs for the library and carries out its decisions.
- `tests/` — executable tests of the library.
