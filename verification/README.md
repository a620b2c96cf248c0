# defing

A distributed configuration service. Configurations are kept by project, branch, group and item. A change
goes from a draft to an immutable version, is published, and is told to those who watch the branch. All
branches of a project share one structure; only the values differ.

`src/` is a library verified with Verus: the state machine with its commands, the diff between versions,
validation, rendering, the encryption of secrets, sessions, the decisions of the HTTP interface and those
of a node that starts, joins or leads a cluster. `src/laws/` states what holds across commands: that a
published configuration is what is read, that versions never change, that a rollback restores, that
pruning spares what is still needed.

Calls into outside crates stand in `src/outside.rs`, each with the facts that the proofs rest on.

`app/` is the server and the command-line client around it: HTTP, the Raft network, files and the clock.
`tests/` runs the library on concrete inputs.
