# nt_relay

A relay for multiplayer games: game clients connect to the relay over UDP,
authenticate for an application, create or join rooms, and exchange game
data through the relay with the other peers of their room.

`src/` is the verified library:

- `wire`, `packet`: the byte format of the protocol, with an encoder and a
  decoder proved to be each other's inverse, and exact contracts for every
  field reader and writer.
- `rooms`, `apps`: the server's registries. Join codes are drawn at random
  and proved fresh; rooms are found by id and by join code; peers get
  increasing peer ids that lead back to their client.
- `handlers`: what the server does with each request of a client, as a
  function from the registries and the request to the new registries and
  the packets to send; and the shutdown, which empties every application
  of its rooms and names every client to disconnect.
- `relay_client`: the game client's side: the packets it sends and the
  events it reports for what it receives.
- `config`, `text`: the server configuration, read from raw environment
  values.
- `transport`, `error`: the types shared with the transports, and what
  each side does with a datagram its reliability layer has decoded.

`app/` holds what Verus does not check: reading the environment, error types
that print their messages, and a driver that applies the server's decisions
to its table of clients and hands packets to a transport.
