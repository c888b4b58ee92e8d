# yayatht

`yayatht` runs a command in a network namespace of its own, without root, and
carries its traffic through host sockets or a proxy. The namespace sees a TAP
interface. A data plane reads its frames, ends its TCP connections, and copies
their streams to sockets that are connected directly or through a SOCKS5 or
HTTP CONNECT proxy.

The rules of the program are a library verified with Verus. Everything under
`src/` has a contract that says what it returns and what it changes, and a proof
that it does so.

## Layout

- `src/packet`: Ethernet, ARP, neighbor discovery, IPv4, IPv6, ICMP, UDP and TCP
  on octets.
- `src/tcp_adapter`: sequence numbers, the state of a TCP flow, and timers.
- `src/proxy_proto`: the client sides of SOCKS5 and HTTP CONNECT, and SOCKS5 UDP.
- `src/dataplane`: the flow table, buffers, DNS over TCP, UDP associations, and
  the steps of the reactor.
- `src/namespace`: the configuration of an instance, its control protocol, and
  the steps of its processes.
- `src/sys`: the layouts and decisions behind the system calls.
- `src/support`: the rules of the benchmark and soak tools.
- `src/cli.rs`: what the arguments of the command line stand for, and how the
  status of an instance is shown.
- `src/json.rs`: the members of a JSON object.
- `app`: the program around the library, with its system calls and its output.
- `tests`: tests of the library.

Functions named `law_…` state what holds across several operations: what one
call undoes of another, what every operation keeps, what stays as it was.

What calls into another crate or an unspecified part of the standard library
stands in a small function marked `external_body`. Its comment says what its
contract claims of that call.
