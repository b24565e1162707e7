# bigtwo

A server for the card game Big Two. The rules, the rooms, the bots, the sessions and the
statistics are a library verified with Verus (`src/`); the HTTP server around it is ordinary
Rust (`app/`).

## Library (`src/`)

- `cards`, `hands`: cards, their order and text, and the hands they form (singles, pairs,
  triples and the five-card hands), with which hand beats which.
- `game`: dealing and playing a game of four; `basic_game` is the simpler game without
  ownership checks.
- `strategy`, `bot`, `bot_manager`, `bot_handlers`: how bots choose a move, the registry of
  bots and adding or removing them from a room.
- `lobby`, `room`, `room_service`: lobbies and rooms, joining and leaving.
- `game_service`, `game_events`, `service`: games by room, moves, and what each room event
  leads to.
- `events`: room events and the retry policy of event handlers.
- `players`, `session`: player names by identifier, sessions and their tokens' claims.
- `stats`: collected facts, scoring and per-room statistics.
- `errors`, `text`: errors and text helpers shared by the modules.

## Server (`app/`)

Reads the clock and the environment, signs tokens, keeps the library's stores behind locks,
routes HTTP requests and runs the room subscriptions.
