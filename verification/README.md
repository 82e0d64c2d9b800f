# encryptallinator

The verified core of Encryptallinator, a desktop tool that encrypts a file or
a folder with a password.

- `src/payload.rs`, `src/encoding.rs`: the payload (a file's bytes or a folder
  archive, with the name to restore it under) and its bincode encoding.
- `src/crypto.rs`: the sealed file format (`EAI1`, salt, nonce, AES-256-GCM
  ciphertext under an Argon2id key) and the proof that a sealed payload opens
  again with the same password.
- `src/path.rs`, `src/path_laws.rs`: paths as component lists by the rules
  of a platform style (Windows: `/` and `\` separate, `C:` is a drive prefix,
  joining writes `\`; Unix: only `/` separates, joining writes `/`), and the
  proofs, for either style, that outputs land next to their inputs and archive
  entries stay inside the folder they are unpacked into. Stored names and
  archive entry paths must pass the rules of both styles.
- `src/naming.rs`: stored-name and archive-path rules, output names and the
  search for a free output path.
- `src/workflow.rs`: the checks and decisions of an encrypt or decrypt request.
- `app/`: the host's path style, file-system access, archiving with `tar`
  and `walkdir`, and the request types exchanged with the user interface.
