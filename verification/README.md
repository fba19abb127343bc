# metal_mayhem

Server of an arcade-style arena brawler: players pick one of three characters
on their phones, fight in a shared arena projected on a wall, and the last one
standing wins.

- `src/` is the verified library (Verus): the round lifecycle (`game`), the
  control-panel protocol (`command`), the phone input protocols (`input`), the
  per-step decisions on facing, sprites and blows (`player`, `world`), and the
  text handling they rest on (`text`). Positions, sizes and stats are floating
  point and stay outside it.
- `app/` is the program around it: websockets (tokio, tokio-websockets),
  configuration (`props.ini`), JSON (serde), and the float geometry of the
  arena.
- `tests/` runs the library on concrete messages and arenas.
