# tonic-shmsc

A gRPC transport over shared memory. Client and server share a segment with one
byte ring per direction; a Unix socket (or a named pipe) brings them together,
rings the doorbell and tells when a peer is gone.

`src/` is the verified library: it decides and computes, and holds no sockets,
mappings or tasks.

| module | what it is |
|---|---|
| `frame`, `control`, `block`, `le`, `text` | the codecs |
| `image`, `seg`, `handshake` | the segment, its stamp, and how it is handed over |
| `ring`, `wake`, `wire` | the rings, parking and wake-ups, frames over a ring |
| `reader`, `writer`, `conn` | the loops of a connection as state machines |
| `config`, `flow`, `body`, `pump`, `table` | windows, ledgers and bodies of streams |
| `client`, `server`, `listener`, `rpc` | the two ends, and both together |
| `registry`, `experimental`, the crate root | selecting a transport, the builders |
| `deadline`, `reconnect` | the bound on a call; a connection that is made again |
| `conduit`, `raw_peer` | transfers over the channel; a peer that sends anything |
| `outside` | what is believed of `bytes`, `http` and the standard library |

Each operation of a connection changes its state and lists what is to be done
outside. `app/` does those things, with tokio and the system calls.

Functions named `law_...` state what holds across operations: that frames arrive
as they were sent, that no wake-up is lost, that a credit window neither overruns
nor starves, that calls open their streams in order, that draining cuts no accepted stream short.
