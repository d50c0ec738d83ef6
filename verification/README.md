# openra

Verified pieces of a Red Alert game engine: the data formats it reads, the
tick-0 world and its sync hash, and the skirmish bot. Every function in `src/`
is proved by Verus against its contract; there are no trusted items.

## Layout

- `src/palette.rs`: `.pal` palettes (6-bit and 8-bit), RGBA lookup, player
  color remapping.
- `src/shp.rs`: SHP sprites: header and offset table, Format80 (LCW)
  decompression, XOR frames. The contract of `decode` is an exact model of the
  decoder, error messages included.
- `src/rng.rs`: the Mersenne Twister generator, stated as a state machine
  (`RngState`, `spec_next`, `spec_next_range`).
- `src/math.rs`, `src/sync.rs`: cell and world positions and the world sync
  hash, modelled as an exact integer sum cropped to 32 bits.
- `src/map.rs`, `src/world.rs`: map data, `build_world` (actor IDs and the
  synced traits of map actors) and `World::sync_hash` / `sync_hash_debug`.
- `src/world_view.rs`: what the bot reads of the world (actors, players,
  costs, buildable cells) and the queries on it.
- `src/ai.rs`: the bot. `Bot::tick` is specified as `spec_tick`, a function of
  the bot's state and the world, so a bot's orders are determined by its seed
  and the worlds it sees.
- `src/text.rs`, `src/strs.rs`: decimal formatting and string equality with
  contracts over `Seq<char>`.

## Laws proved

Public proof functions state the properties that span functions, among them:
6-bit scaling is monotonic and exact (`palette`); Format80 output has exactly
the requested length, a smaller request gives a prefix of a larger one, XOR is
an involution, and every decoded frame has width × height pixels (`shp`); the
sync hash is the wrapping sum of its debug components, and a tick-0 world's
hash depends only on the map actors, the number of players and the seed
(`world`); bots for the same player that saw the same worlds issue the same
orders, deploys come at least 20 ticks apart, unit production at least 30
ticks apart and only with 500 credits, the bot only queues allowed items, and
the squad lists hold each unit once and only living units (`ai`).

## Tests

`tests/` runs the library on concrete inputs: palette and SHP decoding,
reference outputs of the generator, world building and sync hashes, and bot
scenarios.
