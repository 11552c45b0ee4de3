# netzer

A network packet analyzer for Linux whose decoding, display and bookkeeping
logic is written and proved in Verus.

`src/` is the verified library:

- `ethernet`, `ipv4`, `ipv6`, `arp`, `tcp`, `udp`, `icmp`: header parsers over
  the captured bytes, each with an exact contract (what is accepted, what the
  header and the payload are, what each field reads).
- `dns`, `tls`: the DNS query name and the TLS ClientHello server name.
- `http`, `dissect`, `records`: what is shown of a frame (protocol, endpoints,
  description) and the JSON export and live-view records.
- `tcp_stream`: stream reassembly keyed by connection, whichever direction a
  segment travels.
- `hexdump`, `display`, `textfmt`: text layout, including the widths of the
  dashboard lines with ANSI colour sequences.
- `tally`, `dashboard`: the dashboard's counters, feed, packet rate and shares.
- `style`: which terminal style each protocol and description is shown in.
- `pcap`: the capture file format the raw frames are exported in.
- `sha1`, `websocket`: the live view's WebSocket handshake, frames and routing.
- `bpf`, `privilege`: the kernel filter programs, proved to keep exactly the
  frames of the chosen protocol or port, and the privilege drop decision.
- `wire`, `error`: shared byte reading and parse errors.

The reassembler's streams and the dashboard's counters are vectors whose
keys never repeat, rather than hash maps: Verus specifies hash maps well only
for integer keys, and these are keyed by text (addresses and protocol labels).

`app/` is the command around it: argument parsing, the raw socket and its
system calls, files, threads, colours and the terminal.

`tests/` runs the library on concrete inputs.
