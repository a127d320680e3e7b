# vlan_gaming

A LAN for games over a UDP relay. Clients register in a named room on the
relay, get a virtual address `10.10.0.x`, and send IP packets to each other
through it.

- `src/` is the verified library (Verus):
  - `protocol.rs`: the client and server messages and their wire format,
    with encoders, decoders and the round-trip laws;
  - `server.rs`: the relay's rooms, the virtual addresses it hands out, and
    what it answers to each message, with the laws on them;
  - `client.rs`: what a client makes of the relay's messages, and how the
    tunnel handles packets;
  - `ipv4.rs`: addresses as integers and octets;
  - `ui.rs`: the values the desktop front end shows.
- `app/` is the relay server program and the client's UDP and WinTun I/O.
- `tests/` runs the library, and checks the wire format against bincode.
