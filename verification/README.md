# majiang

A server for four-player majiang (mahjong) tables: the rules of the game, the state of a
table, the rooms in which players gather, and the framing of the messages between clients
and servers. The library in `src/` is verified with Verus; `app/` is the program around it
(sockets, the message bus, the store, timers).

## Library (`src/`)

- `model` — tile faces and card ids (four copies of each face; a card id `c` is of kind
  `c / 4`).
- `operation` — the moves (pop, chi, peng, gang, hu, zimo), their priorities and wire numbers,
  and what a hand can claim on a popped card.
- `melds`, `winning`, `hand` — the model of winning hands (a pair and groups of three) and the
  search that decides them.
- `state` — a player's hand and groups; the table: wall, hands, step, current player.
- `game`, `turn` — one round as a sequence of decisions (draw, the current player's choice, the
  answers to a pop) that return the messages to send; a game of many rounds with its scores.
- `room` — rooms, seats, readiness, and the handles of started games.
- `message`, `session`, `frontend` — the wire messages and their sizes, the cutting of a byte
  stream into messages, the login answer, and the routing of requests to topics.
- `random` — the calls into `rand` (thread generator, shuffle, choice).

## Program (`app/`)

`main.rs` runs the front end: it accepts clients, logs them in, and passes their requests to
the topic of their room. `game_runner.rs` plays the rounds of a table with the library's turn
steps; `wire.rs` holds the serde forms of the messages.
