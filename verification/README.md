# ebpf_firewall

An XDP firewall that drops IPv4 packets from blocked source addresses and
reports the TCP and UDP packets it lets through, with an HTTP API that
manages the stored block list.

`src/` is the Verus-verified library:

- `package` — the 9-byte record the XDP program hands to user space, its
  big-endian encoding and decoding, proved inverse to each other.
- `address` — the address check the HTTP API applies (through the `regex`
  crate), and dotted-decimal parsing and formatting, proved to round-trip.
- `blocklist` — the bounded set of blocked addresses and its loading from
  the stored address texts.
- `firewall` — the decision on one Ethernet frame, stated as a function of
  its bytes and the block list, with the laws that blocked sources are
  dropped and that stored addresses take effect.
- `block_ip` — the rules by which requests to add or remove addresses are
  refused.
- `package_info` — the rows of reported packets.

`app/` holds the programs around it: the actix-web server, the aya loader
and ring-buffer collector, and the process helpers.
