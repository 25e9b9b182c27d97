# ircbot

A small IRC bot whose protocol logic is verified with Verus.

The library (`src/`) holds the client as a value: its identity, master masks,
channels, commands and the unfinished tail of the incoming stream. It never
touches a socket. Text from the server goes in through `Irc::receive`, each
line is answered by `Irc::try_handle_line` / `Irc::handle_line`, and what the
client wants printed or sent is queued as `Output`s, in order, for the caller
to deliver (`Irc::take_outputs`, then `protocol::frame_message` for each
message to the server).

- `text`: character-level splitting, joining and comparison of strings.
- `protocol`: framing of outgoing messages, splitting of the stream at CR LF,
  status codes, host masks, decimal numbers.
- `commands`: bot commands and their restrictions.
- `irc`: the client state, its accessors, the master check (through the
  `regex` crate) and the output queue.
- `actions`: registration, `JOIN`, `PART`, `PONG`.
- `dispatch`: running a command for a channel or a private message.
- `events`: the response to each kind of server event.
- `lines`: reading a server line into an event and responding to it.
- `replies`: the bot's own `help` and `melp` commands.

`app/main.rs` is the program around it: the TCP/TLS connection (through
`openssl`), the read loop, and delivery of the queued outputs.
