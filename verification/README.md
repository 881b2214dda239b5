# mhrise_save_migrate

Moves Monster Hunter Rise: Sunbreak characters between saves (Switch to
Steam, Steam to Steam), with its logic verified by Verus.

## Layout

- `src/` is the verified library. A decoded save is modelled as plain data
  (`model`): top-level classes under a key, each a list of hashed fields.
  - `murmur`, `container`, `payload`, `raw`, `plaintext`: the MurmurHash3 checksum, the
    link word that ties a slot to its system file, patches of the decrypted
    stream, container framing, and the trimmed plaintext stream.
  - `migrate`, `sysmigrate`, `hunter`, `records`, `sys`: the migrations and
    edits of slots and system files.
  - `read`, `edit`, `slot`, `report`, `extract`, `sig`: reads, summaries,
    listings and content signatures of a decoded save.
  - `assign`, `strparse`, `text`, `ieee`: field assignments read from a
    tab-separated listing, with the text and number handling they need.
  - `laws`: properties that span operations (read-back after edits, what a
    migration preserves, which containers validate).
- `tests/` runs the library on concrete saves.
- `app/` holds the front ends: the WebAssembly module and the `save_copy` and
  `size-sync` command-line tools. They decode and encode saves with the save
  library (`ree-lib`) and hand the decoded data to `src/`.
