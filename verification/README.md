# phase

A verified library for a studio asset pipeline: planning and checking copies between
local, prod and archive folder trees; ingesting camera cards (scanning, manifests,
worker bookkeeping, card logs); reading camera names and orientation from EXIF;
the asset table's filtering, sorting and row messages; the script queue; the
file-watch schedule; and the login flow's token handling.

- `src/` is the library. Every function in it is verified by Verus against its
  `requires` / `ensures`; laws that span several functions are public proof
  functions named `law_*`. Calls into outside crates (hashing, Base64, URL
  encoding, JSON, randomness, the clock) sit behind small trusted wrappers whose
  contracts say what the crate promises.
- `tests/` runs the library on concrete values.
- `app/` is a small command-line program around the library: file walking,
  reading and writing files, and the configuration file.

Verify with Verus on `src/lib.rs`.
