# leaf

A distributed file store for a local network. A client cuts a file into
Reed-Solomon shards, encrypts every shard, names it by its Streebog-256
digest and hands it to a host of the broadcast domain that offers to keep
it; the file is then replaced by the list of those names. Receiving asks the
domain for every named shard, decrypts what arrives and recovers the file.

## Layout

- `src/` — the library, verified with Verus: shard splitting and recovery
  (`shards`, `sharing`), the encryptors (`crypto`, `ofb`, `aes`, `ige`), secret
  sharing (`sharer`), digests (`sha`, `encoding`), the shard lists of a file
  (`chunks`, `parts`, `meta`), the datagrams (`message`, `datagram`,
  `broadcast`, `codec`), the stores of the storage hosts (`storage`,
  `server`, `kvstore`, `peer`, `chunkstore`), the credentials files
  (`credentials`) and the service-manager messages (`notify`, `service`).
  Calls into outside crates go through small trusted functions whose
  contracts say what those crates compute.
- `tests/` — tests of the library against concrete values.
- `app/` — the programs: the client (`--action send|receive --file F`), the
  storage daemon (`--daemon`) and the storage peer of the compressed
  protocol (`--peer`). They do the network and file work and leave every
  decision to the library.
