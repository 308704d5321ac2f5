# proto

The wire format of a small Minecraft-protocol server, verified with Verus:
VarInts, strings and big-endian integers, the packet frame (length, packet id,
data), the packets a client sends during the handshake, status and login
states, and the packets the server answers with.

Layout:

- `src/datatype.rs`: the primitive types, the `Encode`, `Decode` and `Length`
  traits, and spec functions for each encoding; `src/datatype/laws.rs` proves
  what they promise (round trips, lengths, VarInt and string decoders reading
  only the bytes they report).
- `src/packet.rs`: `BytesParser`, `Packet` and `PacketParser`, with the laws of
  the frame.
- `src/serverbound*`, `src/clientbound*`: the packet data the server reads and writes.
- `src/conn.rs`: the connection states and their numbers.
- `src/handler.rs`: what the server decides at each step, from received bytes
  to the bytes it sends.
- `app/`: the TCP server itself (sockets, threads, logging), built on the library.
- `tests/`: tests that run the library with the real outside crates.
