# richat_shm

A shared-memory ring buffer transport: one writer, many readers, a memory-mapped file between
them. The library under `src/` is verified with Verus.

| Module | What it holds |
| --- | --- |
| `bytes`, `ring`, `capacity` | little-endian integers, circular copies, power-of-two capacities |
| `layout` | header, index entries (V1, V2), the region's sizes and its initialization |
| `journal`, `journal_laws` | what a region records of the messages written to it |
| `writer` | the direct V2 writer and the V1 writer of the server |
| `reader`, `reader_laws` | opening a region, the reader's state machine, lag detection |
| `bloom256`, `pre_filter` | the account bloom filter and the rules on index metadata |
| `plugin` | what the validator's callbacks send where, and the metadata of each message |
| `server` | the task that follows a message source |
| `source`, `source_laws` | starting, reconnecting, polling and reloading sources |
| `config`, `quantity` | configuration values, and how counts and sizes are written |

A write stages a message and then publishes it; a reader asks for one load at a time and is told
what was found. The application under `app/` makes the stores and loads on the shared mapping, with
the orderings that they need, and runs threads and async tasks.

The writer counts the bytes of a message, and commits its index entry, only after it has laid them
down. A reader that copies a message, or reads an index entry, while the writer is in the middle
of laying another one over it can therefore miss that. What the checks guarantee is stated in
`reader_laws::lemma_rechecked_copy_is_message` for the copy, and in
`reader_laws::lemma_delivered_copy_is_message` for all loads of a message together.
