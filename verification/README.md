# stream_multiplexor

Many streams over one stream, with `u16` ports and a listener and dialler interface in the manner
of TCP. The core is written in Verus: its behaviour is stated in contracts and proved.

- `src/` is the core. It performs no I/O: it takes events and returns what is to be done.
  - `frame`, `wire`: frames, their form on the wire, the decoder and the encoder.
  - `socket`: the state machine of one end of one connection.
  - `inner`: the tables of ports and connections, and the decisions of the tasks that read, write
    and watch over the stream below.
  - `multiplexor`, `listener`, `config`, `error`, `action`, `text`: what users and drivers handle.
  - `outside`: everything that is believed, without proof, of the `bytes`, `bincode`, `serde` and
    `rand` crates, and of the standard library's formatting.
  - `laws`: what holds of the library as a whole: a reader gets back the writer's frames, streams
    share one stream and do not mix, a listener hands out each of its connections once and in order.
- `app/` drives the core with `tokio`.
- `tests/` runs the core, byte by byte, between two ends.
