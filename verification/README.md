# motd-cli

Gets a Minecraft server's MOTD (message of the day) like PING: the Bedrock
Edition status over UDP (RakNet Unconnected Ping) and the Java Edition status
over TCP (Server List Ping).

- `src/` is the library, verified with Verus:
  - `text.rs`: decimal rendering and parsing, substring search, template
    substitution, splitting and trimming, over `Seq<char>`;
  - `util.rs`: default ports, host/port splitting, Minecraft `§` codes to
    ANSI escape sequences or plain text, the colour decision;
  - `i18n.rs`: the messages in Chinese and English and the choice between
    them;
  - `protocol/varint.rs`: the VarInt encoding, with its round trip proved;
  - `protocol/java.rs`: handshake and request packets, the byte-by-byte
    reader of the status response header, the description text;
  - `protocol/bedrock.rs`: the Unconnected Ping and the reading of the pong;
  - `cli.rs`: arguments, mode, the order of guessing, the printed text.
- `app/` is the program around it: sockets, clocks, the environment, JSON
  (serde) and printing.
- `tests/` runs the library on concrete values.
