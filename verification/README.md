# shared

The game logic of a multiplayer first-person shooter, verified with Verus.

`src/` is the library: every function in it carries a contract that Verus
proves, except the small trusted wrappers round the outside calls (`rng` for
the seeded random generator, and in `text` the calls into `std` for pushing a
character, case mapping and `{:?}` quoting), whose contracts are
taken on trust from the documentation of what they call.

- `level`, `search`, `generation`, `expedition`: the level graph, breadth-first
  search (shortest paths and depth maps), the stepwise level generator and the
  expedition design pass (objective, keycard, door escalation, hazards,
  resources, terminal network, horde spawns, scan nodes), with the laws the
  design keeps.
- `terminal`, `text`: terminal consoles, command parsing and execution, and the
  string helpers they rest on.
- `lobby`, `protocol`: the lobby (joining, leaving, hosts, reconciling with the
  live connections) and the shared protocol types.
- `content`, `prefab`, `noise`, `culling`, `patrol`, `sleeper`, `bot`,
  `weapons`, `entities`: what the world spawns and how its agents decide.
- `rng`: the seeded random generator, behind trusted wrappers.

`tests/` runs the library on concrete values.

`app/` is the Bevy game around the library: networking, physics, rendering,
character movement, the gym and static test levels, level meshes, and the
floating-point parts of noise, sleepers and bots. It calls the library for
every decision the library makes.
