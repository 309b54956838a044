# bpt

The verified core of `bpt`, the Bedrock Package Tool: the rules and data formats of the package
manager, written in Verus with their contracts proved.

## Layout

- `src/` — the library, verified by Verus:
  - `sig`, `sigcheck`, `codec`: locating the trailing signature block of a signed file, deciding
    how a file is checked against the configured keys, parsing a located signature for minisign,
    and the block a signature is written as;
  - `window`: a window onto a file (bounds and cursor) with its seek and read rules;
  - `manifest`, `instfile`: the install manifest of an installed package — its entry order, and
    its entry stream as typed fields (encoding entries into fields and decoding fields into
    entries; the byte form of each field is not part of the library);
  - `tarball`: reading a package payload (a zstd-compressed tar archive) into install entries
    and package metadata;
  - `bpt_conf`, `repos`, `world`: the configuration files, the repository list and the world file
    (reading, editing, and writing back with comments kept);
  - `check`, `outcome`, `search`, `shell`, `netutil`, `cache`, `paths`, `passphrase`:
    the decisions and texts of the commands;
  - `error`, `color`, `constant`, `arch`, `text`: shared definitions and string helpers.
- `tests/` — tests of the library on concrete values.
- `app/` — a `bpt` command offering `verify`, `sign` and `clean` around the library: argument
  handling, files, terminal, and the calls to minisign for signing and verifying.
