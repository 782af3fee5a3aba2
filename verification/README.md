# picomux

A stream multiplexer, and the decisions of a client that tunnels traffic through one. Many
streams share one connection; each has flow control of its own, and pings tell whether the other
end is alive. The library decides and computes, and Verus proves what it does. It neither reads
nor writes.

## Layout

`src/` is the verified library.

| module | what it holds |
| --- | --- |
| `frame` | frames and their bytes |
| `session` | what a multiplexer does with each frame that it reads or writes |
| `pump`, `window` | the sending and the receiving half of a stream |
| `liveness` | when to ping, and what to make of the answer |
| `mux` | the handles of a multiplexer and of a stream |
| `transfer` | what two multiplexers that talk to each other achieve |
| `flow` | what a sender sends for a stream, and why a receive queue never overflows and a sender never starves |
| `client` | the address to ask an exit for, and the agreement on keys |
| `vpn`, `script` | the rules and the script of the routing around a tunnel |
| `error`, `text` | failures and numerals |
| `buffer`, `tables`, `crypto`, `time` | what is relied on of `bytes`, `dashmap`, `x25519-dalek`, `blake3` and the standard library |

Functions named `law_...` state what holds across several operations. What is taken on trust is
marked `external_body` or `assume_specification`, with a comment that says what is claimed. Most
of it stands in the last four modules; two functions that draw an identifier and read a host name
stand where they are used, in `session` and `client`.

`app/` drives the library: sockets, channels, timers, tasks and shell commands.

`tests/` runs the library on concrete values.

## The wire

A frame is a header of eight bytes and a body. The header holds a version, a command, the length
of the body (two bytes, low byte first) and the identifier of a stream (four bytes, low byte
first). The commands open (`SYN`), close (`FIN`) and feed (`PSH`) a stream, grant its sender more
frames (`MORE`), ask for a sign of life (`PING`) and give one (`PONG`); one does nothing (`NOP`).
