# jasshaus

The rules of the Swiss card game Jass (the Schieber variant), written in Verus: each
function states what it does in its contract, and Verus proves it.

- `src/` is the library.
  - `card.rs`: cards, shows and the 64-bit card set, viewed as a set of card numbers.
  - `playtype.rs`: the game modes, the strength and value of cards and shows.
  - `setting.rs`: the settings of a game.
  - `game.rs`: the state of a game and the moves that change it, each stated over a
    mathematical model (`GameModel`).
  - `laws.rs`, `safety.rs`: what every move keeps (a round stays in order, counters only
    grow, a player always has a legal card), and when a move is safe to make.
  - `round.rs`: the points of a whole round.
  - `room.rs`, `voting.rs`: seats, teams, who announces first, votes, and what the room
    does after a play, an announcement or a vote.
  - `show_choice.rs`, `client.rs`: what a player's screen computes from the game.
  - `bits.rs`: facts about bit operations on the card set.
- `tests/` runs the library on concrete games.
- `app/` is the game server: websockets, the room loop and the messages on the wire.
  The room loop asks the library what to do after a play, an announcement or a vote
  (`room.rs`) and performs it.
