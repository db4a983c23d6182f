# combat-core

The combat rules of the combat-core mod, verified with Verus.

- `src/kinds.rs`: damage types, the table of names by which the world writes them, body parts,
  special attack kinds.
- `src/config.rs`: combat settings, the basis-point damage multiplier, who may damage whom.
- `src/targeting.rs`: positions, ranges and the towers' choice of target.
- `src/buffers.rs`: pending requests, intents and resolved special attacks.
- `src/intents.rs`: melee, ranged and heal systems that turn requests into intents.
- `src/status.rs`: resolution of special attacks, one per target.
- `src/damage.rs`: resistance (each TOUGH part reduces incoming damage by a tenth, at most by a
  half, applied to each target's damage total), totalling intents per target and applying
  them to hit points.
- `src/registry.rs`: registration of damage types, body parts and actions.
- `src/descriptor.rs`: what the mod declares to the engine.
- `app/`: the bevy plugin and systems that move world data in and out of the rules.
