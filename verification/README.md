# mmproxy

A proxy for the PROXY protocol over UDP.

- `mmproxy mmproxy` receives datagrams that carry a PROXY header of version 2, takes the header off
  and speaks with the server from the client's own address.
- `mmproxy reverseproxy` puts such a header in front of the datagrams of its clients and passes them
  on.

## Layout

- `src/` is a library verified with Verus. It decides; it does no I/O.
  - `addr`: addresses as plain values, and IPv4 addresses mapped into IPv6
  - `text`: lines, numbers and letter case
  - `subnet`: the subnets that datagrams are taken from
  - `header`: PROXY headers, read and written with the `proxy_protocol` crate
  - `args`: the command line
  - `socket`: the steps that prepare each kind of socket
  - `relay`: what becomes of each datagram, from the listener to the server and back
- `app/` is the program: it reads files, makes sockets, runs tasks, and does what the library
  decides. It has no listener for TCP connections.
- `tests/` runs the library on concrete values.

Functions marked `external_body` call other crates or the standard library. Verus takes their
contracts as given; their comments say what is claimed of the function they call.

A datagram can break off inside its PROXY header in a way that the parser of `proxy_protocol` does
not survive. `header_cut_short` says exactly when; the library asks before it parses.
