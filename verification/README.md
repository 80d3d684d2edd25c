# battleserver

Rules of a turn-based board battle for up to four players, verified with
Verus: players and their characters, buffs and skill cooldowns, target and
cell checks, areas of effect, the skills that move and show cells or put
buffs on characters and cells, the buffs that answer moves, attacks, skill
use and a map refresh, the choice of starting cells and the order of turns,
missions, the shop, leagues and seasons, the robots that play for absent
players, and the routing of players to gate and battle servers.

Not held here: the damage and healing skills (and with them the
self-wounding part of the buff skills), the attack and skill flows of a
turn, and the generation of a new map.

- `src/` is the library. Every executable function has a contract stated
  over the spec functions next to it; public proof functions named `law_*`
  and `lemma_*` state properties that span several calls.
- `src/outside.rs` holds the two trusted calls into outside crates: a random
  index (`rand`) and the local time (`chrono`).
- `tests/` runs the library on concrete values.
- `app/` is the process around the library: configuration, the timer loop,
  the robots' outgoing requests and the JSON records.
