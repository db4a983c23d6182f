//! Combat rules of the combat-core mod: target selection for towers, the
//! conversion of pending damage and heal requests into intents, the
//! resolution of special attacks, and the application of damage and healing
//! to hit points.

pub mod buffers;
pub mod config;
pub mod damage;
pub mod descriptor;
pub mod intents;
pub mod kinds;
pub mod registry;
pub mod status;
pub mod targeting;

pub use kinds::{BodyPart, DamageType, SpecialAttackKind};
pub use buffers::{ResolvedStatusIntent, ResolvedStatusIntents};
pub use config::{can_damage, scale, CombatConfig};
pub use damage::damage_application_system;
pub use descriptor::CombatCoreModPlugin;
pub use intents::{attack_system, heal_system, ranged_attack_system};
pub use kinds::{damage_type_from_name, DamageTypeNames};
pub use registry::{register_combat_core, CombatRegistry};
pub use status::{special_attack_reducer, StatusState};
pub use targeting::{range, tower_auto_attack_system, Tower};
