# qz

The rules of a small space game, written in Verus and proved against their
contracts: inventories and their space, credits and trading with stores,
equipment slots, item drops, factions and hostility, the AI's task plan and
action steps, weapon decisions, spawners, the universe map of zones generated
section by section, world chunks, and the names under which items and
equipment are saved.

- `src/` is the verified library. Outside collections (the `bevy` hash maps,
  the `petgraph` zone graph) and random draws (`rand`, `bevy_turborand`,
  `random_word`) are reached through small trusted wrappers whose contracts
  state what the outside code does.
- `tests/` exercise the library on concrete values.
- `app/` holds what stays outside the proofs: the serialized and error-message
  forms of the library's types, the floating-point parts of the game (energy,
  heat, damage, craft handling, positions), and the systems that check a
  library call's preconditions, make the call and act on its result.
