# mumble_client

A client library for the Mumble voice-chat control protocol, verified with
Verus, and a small command-line client around it.

- `src/frame.rs`: the six-byte message header and `serialize_message`.
- `src/receive.rs`: the state the receive loop keeps between the pieces
  of bytes the connection hands it, what it does with each piece, and its
  laws.
- `src/message_kind.rs`: the table of message kinds and their wire numbers.
- `src/wire.rs`: the protobuf wire encoding as spec functions, and the
  `protobuf` stream readers and writers the library calls.
- `src/proto.rs`: the version, authentication, ping and channel-state
  messages: their encodings, decoders and laws.
- `src/schema.rs`: the field tables of the messages the client reads (and
  of its authentication message), and the decoder that reads a message by
  its fields' types and checks its required fields.
- `src/outgoing.rs`: the framed handshake and ping messages, and the laws
  that what the client writes decodes back.
- `src/parser.rs`: the parser state: channel table, header reading, the
  entry to the receive loop, and the dispatch of received messages.
- `src/transport.rs`: the receiving side of a transport.
- `app/`: argument handling, audio-device listing, the TLS connection and
  the session loop that feeds the parser.
