# pikabit

A BitTorrent client whose protocol logic is verified with Verus.

- `src/` is the verified library: bitfields, piece bookkeeping and
  assembly, block requests, peer wire messages and handshakes, the layout
  of a torrent's bytes over its files, tracker URLs, UDP tracker packets
  and HTTP announce URLs. Calls into `byteorder`, `sha1`, `rand`, `regex`
  and `urlencoding` go through small trusted wrappers whose contracts are
  stated next to them.
- `app/` is the program around it: command-line arguments, the torrent
  file and tracker answers read with `serde`, sockets, files on disk, the
  `tokio` tasks that carry out what the library decides, and the progress
  display.
- `tests/` runs the library on concrete values.
