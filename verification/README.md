# gossip_glomers

A node for the Maelstrom distributed-systems workbench (echo, unique ids,
broadcast with gossip), written in Verus.

- `src/` is the verified library. `MyActor` is the node's state;
  `MyActor::handle_message` takes one message and returns the messages the
  node sends, and `MyActor::handle_event_gossip` runs one round of gossip.
  Each handler's contract is a step relation over `ActorView`
  (`echo_step`, `broadcast_step`, `gossip_step`, `tick_step`, ...).
  `NewLineFormatter` frames JSON output one object per line.
- `src/laws.rs` holds the properties proved of whole runs of a node: values
  are never lost, reads return every earlier broadcast, generated ids and
  message numbers are never repeated, the gossip bookkeeping stays consistent,
  and an acknowledged gossip brings the neighbour up to date.
- `app/` reads messages from standard input, converts them from JSON, hands
  them to the library, writes the answers, and drives the gossip timer.
- `tests/` exercises the library on concrete messages.
