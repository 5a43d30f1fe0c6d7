# delphi_rs

The decision logic of a family of Byzantine fault-tolerant agreement
protocols, written in Verus and proved against its contracts:

- `delphi`, `delphi_rbc`: Delphi's binary approximate agreement over levels of
  checkpoint intervals, the laws that keep a level's intervals a partition of
  the number line, and the reliable broadcast that ends a run;
- `appxcon`, `hyb_appxcon`: approximate agreement by n-parallel reliable
  broadcast and the witness technique;
- `fin`: FIN's reliable broadcasts, binary agreement rounds and coin;
- `aacs`: asynchronous common subset over DKG transcripts;
- `dkg`: transcript validity and the decisions of a DKG node;
- `config`, `parse`: node configuration and the parsing of inputs;
- `syncer`: the synchronizer that starts and stops an experiment.

Every handler is a function from a node's state and an event to its next
state and the actions to perform, so a caller runs the network loop and hands
events back. `app/` holds that loop, file and network I/O, the serde copies of
the configuration types, and hashing.

The tests under `tests/` exercise the library with the outside crates linked.
