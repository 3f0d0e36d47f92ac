# hermes

A node of a Kademlia hash table that people use to find each other by name.

- `src/` is the library, verified with Verus. `routing_table` is a bounded list
  of peers, `dht` puts and looks up records, `dht_db` keeps records on disk,
  `input` reads what the user types, and `node` decides what a running node
  does: its identity, its database, whom it dials. `text` and `record` serve
  the others; `outside` declares the types of other crates.
- `app/` is the program: the terminal, the network, and the conversions between
  the library's types and those of libp2p.
- `tests/` runs the library with the real libp2p and sled.

What libp2p, sled and the standard library do is stated, not proved, in the
functions marked `external_body`; each names the call it stands for.
