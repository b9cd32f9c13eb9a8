# private_vault

A verified core for a local password and contact vault.

- `src/key_envelope.rs` — the vault key envelope: an Argon2id-derived key
  wraps a random data key with XChaCha20-Poly1305; unwrapping with the
  password gives the data key back.
- `src/field.rs` — field-level encryption of stored records, bound to vault,
  table, record and column.
- `src/records.rs` — credentials and people: validation, the texts stored per
  column, row encryption and decryption, and the plan of reference checks.
- `src/session.rs` — local accounts, remembered sign-ins, the unlocked-vault
  session and the password reveal setting.
- `src/text.rs` — Unicode trimming, hexadecimal and identifier escaping.
- `src/crypto.rs` — the trusted wrappers around `argon2`, `chacha20poly1305`,
  `getrandom` and two std string functions.

`app/` holds the command-line program and the desktop commands, which keep
files, SQLite and the session lock around the library.
