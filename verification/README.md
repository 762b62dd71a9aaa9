# lore_revision

The revision control core of the Lore repository engine, verified with Verus.

The library decides and computes; it reads and writes nothing. What a command
has to read is handed in as plain values, and what it has to write comes back as
plain values, events or steps. Contracts state what every function returns, and
public proof functions named `law_...` state what holds across functions.

* `src/metadata.rs` - the metadata format: items in a byte buffer.
* `src/node.rs`, `src/state.rs`, `src/change.rs` - revision trees, their links,
  and changes between them.
* `src/file/` - diff, history, information, reset and unstage of files. The
  modules named `walk` carry a reset or an unstage through a whole subtree.
* `src/link.rs`, `src/layer.rs` - linked repositories, and layers over one.
* `src/repository.rs` and `src/repository/` - configuration, contexts, opening,
  status, verification, and switching branches.
* `src/instance.rs`, `src/lock/`, `src/notification.rs` - instances of a
  repository, locks on files, and subscriptions.
* `src/text.rs`, `src/hexadecimal.rs`, `src/order.rs`, `src/types.rs`,
  `src/registry.rs` - what the rest is built on.

Calls into outside crates (`bytes`, `crossbeam`, `dashmap`, `diffy`, `hex`,
`url`, `uuid`) stand behind functions marked `external_body`, each with a comment
that says what is relied on.

`app/` holds the commands: the files, stores, remotes and tasks around the
library's decisions. `tests/` runs the library on concrete values.
