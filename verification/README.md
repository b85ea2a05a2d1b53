# scorer-kit

An offline toolkit for the scorer files of a Lightning node. It looks into serialized
`ChannelLiquidities`, compares them, merges them, and finds the short-channel-ids that a merge
should touch, all without starting the node.

The library under `src/` is written in Rust with contracts that Verus proves:

- `diagnostic`, `weight`, `order`, `sorting`: the entries of a scorer file and how they compare.
- `summary`, `rows`, `inspect`, `compare`: reports on one or two files.
- `merge`, `overlay`: what a merge decides, and how an allowlist restricts incoming files.
- `scid_list`: text lists of short-channel-ids.
- `node`, `invoice`, `graph`, `node_scids`: the channels that selected nodes have.
- `scores`, `decode`, `size`: what is read, written and formatted by other crates.
- `label`, `validate`, `text`, `keys`, `score_file`: small parts that the others share.

Floating-point weights are held by their bits, so that comparing and sorting them is exact.

The program under `app/` parses the command line, reads and writes files, and serializes reports.
Its file `liquidities.rs` needs a build of `lightning` whose `ChannelLiquidities` offers
`diagnostics`, `remove`, `merge_with` and `merge_without_decay`.
