# pgr

Capture the traffic of PostgreSQL clients, replay it against another server, and
compare the two.

`src/` is a library that Verus verifies. It has no I/O of its own: it takes bytes,
times and events, and gives back messages, records, commands and texts.

- `utils`: bytes, numbers, texts and addresses
- `proto`, `parser`: the messages that a client sends, and their text
- `capture`: segments of TCP, the frames in them, and the ways in which captures are
  kept (`acap`: chunks in a folder, `zcap`: one file, `pcap`: packets)
- `capture_common`, `capture_ebpf`: what a probe in the kernel finds and hands over
- `capture_desc`: how a capture is named on the command line
- `pg_client`: logging in
- `replay`: when frames are sent, in what order, and how long answers take
- `compare`: whether a replay sent what its source sent, and how far behind it was
- `dump`, `dumper`: captures as text

Public proof functions whose names start with `law_` state what holds across
functions: what is written is read back, what arrives in another order comes out the
same, what is sent keeps its order.

Calls into other crates (`ahash`, `bytes`, `etherparse`, `humantime`, `md5`) stand
behind small functions whose comments say what is believed of the call.

`app/` is the program around the library: the command line, files, sockets, io_uring
and the probe. `tests/` holds examples of what the library does.
