# Ark

Ark is a federated, end-to-end encrypted file protocol built on cryptographic
identities. Every file is a body plus signed metadata; membership drives access.

This crate holds the logic of Ark as a library that Verus verifies, and a command
line around it.

## Layout

- `src/` is the library. Every function states in its contract what it returns or
  changes, and the laws that relate several functions are public proof functions.
  - `text`, `number`, `base64url`, `paths`, `timestamp`, `json`, `types`, `error`:
    texts, numbers, points in time and the data types.
  - `primitives`: the functions of outside crates, with what is relied on about
    each of them. Nothing else is taken on trust, but for one function of the
    standard library in `text`.
  - `crypto`, `metadata`, `fields`, `identity`, `permissions`, `membership`,
    `round_trip`: keys and signatures, the metadata of files and how it is written
    as headers and attributes, identities, roles and wrapped file keys.
  - `http`, `events`, `wire`: messages and streams of events as bytes.
  - `auth`, `server`, `server_laws`, `listing`: signed requests, and what the
    server of accounts does about each.
  - `locate`, `upload`, `download`, `sealing`, `manage`, `commands`, `accounts`,
    `bootstrap`, `resolve`: what a client does.
  - `delivery`: what holds from one client over the server to another.
  - `log`, `proposals`, `sync`, `watch`: proposals of others, and keeping a
    directory in step.
  - `file_server`: a server of plain files.
- `app/` is the command line: arguments, files with their extended attributes,
  connections and watchers. It hands the library plain values and does what the
  library decides.
- `tests/` runs the library on concrete values.
