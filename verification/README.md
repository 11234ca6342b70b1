# secure_vault

Encrypted vault containers for removable media: files are kept in a vault,
sealed with AES-256-GCM under a key derived from a password with Argon2id,
and stored in a versioned binary container.

Layout:

- `src/` — the library, verified with Verus:
  - `bytes` — little-endian integer codecs;
  - `text` — string comparison and UTF-8 conversion;
  - `crypto` — key derivation, encryption, password checks (calls into
    `argon2`, `aes-gcm`, `rand`, `subtle`, `zeroize`);
  - `payload` — the encoding of the vault data that gets encrypted;
  - `container` — the binary container (header, salt, nonce, ciphertext),
    sealing and unsealing;
  - `vault` — the in-memory vault and its file table;
  - `display` — sizes and relative times for people;
  - `clock` — the system clock;
  - `fs` — mounting (not supported yet).
- `tests/` — tests of the library.
- `app/` — the `nullcrypt` command-line program: argument parsing, password
  prompts, file I/O and progress bars.
