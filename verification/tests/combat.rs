use combat_core::buffers::{
    DamageIntent, DamageIntentBuffer, HealIntent, HealIntentBuffer, PendingDamage, PendingHeal,
    PendingSpecialAttack, ResolvedStatusIntent, ResolvedStatusIntents, StatusActionIntent,
};
use combat_core::config::{can_damage, scale, CombatConfig};
use combat_core::damage::{
    apply_hits, damage_application_system, resist, resistance, tough_parts_of, HitPoints,
};
use combat_core::descriptor::{CombatCoreModPlugin, TickPhase};
use combat_core::intents::{attack_system, heal_system, ranged_attack_system};
use combat_core::kinds::{
    damage_type_from_name, BodyPart, DamageType, DamageTypeNames, SpecialAttackKind,
};
use combat_core::registry::{register_combat_core, CombatRegistry};
use combat_core::status::special_attack_reducer;
use combat_core::targeting::{range, tower_auto_attack_system, Position, TargetUnit, Tower, TowerUnit};

#[test]
fn scale_applies_basis_point_multiplier() {
    assert_eq!(scale(200, 5_000), 100);
    assert_eq!(scale(200, 10_000), 200);
    assert_eq!(scale(200, 15_000), 300);
}

#[test]
fn combat_config_blocks_friendly_fire_by_default() {
    let config = CombatConfig::default();

    assert!(can_damage(Some(1), Some(2), &config));
    assert!(!can_damage(Some(1), Some(1), &config));
}

#[test]
fn descriptor_is_valid_and_identifies_combat_core() {
    let descriptor = CombatCoreModPlugin::descriptor();
    assert_eq!(descriptor.id, "combat-core");
    assert_eq!(descriptor.version, "0.1.0");
    assert!(descriptor.dependencies.is_empty());
    assert_eq!(descriptor.systems.len(), 7);
    assert!(
        descriptor
            .systems
            .iter()
            .any(|system| system.system_id == "combat-core.damage-application")
    );
}

#[test]
fn plugin_uses_engine_canonical_resources_and_buffers() {
    let target: u64 = 4_294_967_296;
    let config = CombatConfig::default();
    let names = DamageTypeNames::standard();

    let mut registry = CombatRegistry::default();
    let actions = register_combat_core(&mut registry);
    assert!(actions
        .iter()
        .any(|a| a.action_type == "Attack" && a.handler == "attack"));

    let mut pending_damage = PendingDamage::new();
    pending_damage.push(target, 5, DamageType::Kinetic.as_str());
    let mut pending_heal = PendingHeal::new();
    pending_heal.push(target, 2);
    let mut pending_special = PendingSpecialAttack {
        intents: vec![StatusActionIntent {
            kind: SpecialAttackKind { rank: 0 },
            source: target,
            target,
            owner: 7,
            amount: 4,
        }],
    };
    let mut damage = DamageIntentBuffer(vec![DamageIntent {
        source: 99,
        target,
        amount: 10,
        damage_type: DamageType::Thermal,
    }]);
    let mut heal = HealIntentBuffer(vec![HealIntent { source: 99, target, amount: 3 }]);
    let mut resolved = ResolvedStatusIntents::default();
    let mut bodies = vec![HitPoints { entity: target, hits: 100, hits_max: 100, tough_parts: 0 }];

    tower_auto_attack_system(&mut pending_damage, &Vec::new(), &Vec::new(), &config, &names);
    attack_system(&mut pending_damage, &mut damage, &config, &names);
    ranged_attack_system(&mut pending_damage, &mut damage, &config, &names);
    heal_system(&mut pending_heal, &mut heal);
    special_attack_reducer(&mut pending_special, &mut resolved);
    let destroyed = damage_application_system(&mut damage, &mut heal, &mut bodies);

    assert!(pending_damage.entries.is_empty());
    assert!(pending_heal.entries.is_empty());
    assert!(damage.0.is_empty());
    assert!(heal.0.is_empty());
    assert!(pending_special.intents.is_empty());
    assert_eq!(bodies[0].hits, 90);
    assert!(destroyed.is_empty());
    assert_eq!(resolved.entries.len(), 1);
}

fn position(room: &str, x: i64, y: i64) -> Position {
    Position { room: room.to_string(), x, y }
}

fn target_unit(entity: u64, room: &str, x: i64, y: i64, owner: Option<u64>) -> TargetUnit {
    TargetUnit {
        entity,
        position: position(room, x, y),
        owner,
        is_drone: true,
        is_structure: false,
    }
}

fn tower_unit(entity: u64, owner: Option<u64>, range: u32) -> TowerUnit {
    TowerUnit {
        entity,
        position: position("W1N1", 10, 10),
        owner,
        tower: Tower { range, damage: 150, damage_type: DamageType::Thermal },
    }
}

#[test]
fn scale_rounds_down_and_saturates() {
    assert_eq!(scale(3, 3_333), 0);
    assert_eq!(scale(7, 15_000), 10);
    assert_eq!(scale(0, 15_000), 0);
    assert_eq!(scale(u32::MAX, 20_000), u32::MAX);
    assert_eq!(scale(u32::MAX, u32::MAX), u32::MAX);
    assert_eq!(scale(123_456, 10_000), 123_456);
}

#[test]
fn can_damage_follows_pvp_and_friendly_fire_settings() {
    let no_pvp = CombatConfig { pvp_enabled: false, friendly_fire: false, damage_multiplier_bp: 10_000 };
    assert!(!can_damage(Some(1), Some(2), &no_pvp));
    assert!(can_damage(Some(1), None, &no_pvp));
    assert!(can_damage(None, Some(1), &no_pvp));
    assert!(!can_damage(None, None, &no_pvp));
    let friendly = CombatConfig { pvp_enabled: true, friendly_fire: true, damage_multiplier_bp: 10_000 };
    assert!(can_damage(Some(3), Some(3), &friendly));
    assert!(can_damage(None, None, &friendly));
    let default = CombatConfig::default();
    assert!(default.pvp_enabled);
    assert!(!default.friendly_fire);
    assert_eq!(default.damage_multiplier_bp, 10_000);
    assert_eq!(can_damage(Some(4), Some(9), &default), can_damage(Some(9), Some(4), &default));
}

#[test]
fn damage_type_names_round_trip() {
    let names = DamageTypeNames::standard();
    for t in [
        DamageType::Kinetic,
        DamageType::Thermal,
        DamageType::EMP,
        DamageType::Sonic,
        DamageType::Corrosive,
        DamageType::Psionic,
    ] {
        assert_eq!(damage_type_from_name(&names, t.as_str()), Some(t));
        assert_eq!(names.name(t), t.as_str());
    }
    assert_eq!(damage_type_from_name(&names, "Kinetic"), Some(DamageType::Kinetic));
    assert_eq!(damage_type_from_name(&names, "Plasma"), None);
    assert_eq!(damage_type_from_name(&names, ""), None);
    assert_eq!(damage_type_from_name(&names, "kinetic"), None);
}

#[test]
fn range_is_chebyshev_within_a_room() {
    assert_eq!(range(&position("A", 0, 0), &position("A", 3, -4)), Some(4));
    assert_eq!(range(&position("A", 5, 5), &position("A", 5, 5)), Some(0));
    assert_eq!(range(&position("A", 0, 0), &position("B", 0, 0)), None);
    assert_eq!(range(&position("A", i64::MIN, 0), &position("A", i64::MAX, 0)), Some(u64::MAX));
}

#[test]
fn tower_shoots_nearest_enemy_in_range() {
    let config = CombatConfig::default();
    let towers = vec![tower_unit(1, Some(1), 5)];
    let targets = vec![
        target_unit(1, "W1N1", 10, 10, Some(1)),
        target_unit(20, "W1N1", 13, 10, Some(2)),
        target_unit(21, "W1N1", 12, 12, Some(2)),
        target_unit(22, "W1N1", 11, 10, Some(1)),
        target_unit(23, "W1N2", 10, 10, Some(2)),
        target_unit(24, "W1N1", 20, 20, Some(2)),
    ];
    let mut pending = PendingDamage::new();
    tower_auto_attack_system(&mut pending, &towers, &targets, &config, &DamageTypeNames::standard());
    assert_eq!(pending.entries.len(), 1);
    assert_eq!(pending.entries[0].target, 21);
    assert_eq!(pending.entries[0].amount, 150);
    assert_eq!(pending.entries[0].damage_type, "Thermal");
}

#[test]
fn tower_breaks_distance_ties_by_entity_and_skips_non_units() {
    let config = CombatConfig::default();
    let towers = vec![tower_unit(1, Some(1), 5), tower_unit(2, Some(1), 0)];
    let mut plain = target_unit(5, "W1N1", 11, 11, Some(2));
    plain.is_drone = false;
    let mut structure = target_unit(40, "W1N1", 12, 10, Some(2));
    structure.is_drone = false;
    structure.is_structure = true;
    let targets = vec![plain, target_unit(30, "W1N1", 8, 12, Some(2)), structure];
    let mut pending = PendingDamage::new();
    pending.push(77, 1, "Sonic");
    tower_auto_attack_system(&mut pending, &towers, &targets, &config, &DamageTypeNames::standard());
    assert_eq!(pending.entries.len(), 2);
    assert_eq!(pending.entries[0].target, 77);
    assert_eq!(pending.entries[1].target, 30);
}

#[test]
fn attack_takes_only_kinetic_requests() {
    let config = CombatConfig { pvp_enabled: true, friendly_fire: false, damage_multiplier_bp: 20_000 };
    let mut pending = PendingDamage::new();
    pending.push(1, 10, "Kinetic");
    pending.push(2, 20, "Thermal");
    pending.push(3, 30, "Unknown");
    pending.push(4, 40, "Kinetic");
    let mut intents = DamageIntentBuffer(vec![]);
    attack_system(&mut pending, &mut intents, &config, &DamageTypeNames::standard());
    assert_eq!(
        intents.0,
        vec![
            DamageIntent { source: 0, target: 1, amount: 20, damage_type: DamageType::Kinetic },
            DamageIntent { source: 0, target: 4, amount: 80, damage_type: DamageType::Kinetic },
        ]
    );
    let left: Vec<(u64, &str)> = pending.entries.iter().map(|e| (e.target, e.damage_type.as_str())).collect();
    assert_eq!(left, vec![(2, "Thermal"), (3, "Unknown")]);

    ranged_attack_system(&mut pending, &mut intents, &config, &DamageTypeNames::standard());
    assert_eq!(intents.0.len(), 3);
    assert_eq!(
        intents.0[2],
        DamageIntent { source: 0, target: 2, amount: 40, damage_type: DamageType::Thermal }
    );
    assert_eq!(pending.entries.len(), 1);
    assert_eq!(pending.entries[0].target, 3);
    assert_eq!(pending.entries[0].damage_type, "Unknown");
}

#[test]
fn ranged_takes_every_known_damage_type() {
    let config = CombatConfig::default();
    let mut pending = PendingDamage::new();
    pending.push(1, 5, "Psionic");
    pending.push(2, 6, "Kinetic");
    pending.push(3, 7, "EMP");
    let mut intents = DamageIntentBuffer(vec![DamageIntent {
        source: 9,
        target: 9,
        amount: 1,
        damage_type: DamageType::Sonic,
    }]);
    ranged_attack_system(&mut pending, &mut intents, &config, &DamageTypeNames::standard());
    assert!(pending.entries.is_empty());
    let types: Vec<DamageType> = intents.0.iter().map(|i| i.damage_type).collect();
    assert_eq!(
        types,
        vec![DamageType::Sonic, DamageType::Psionic, DamageType::Kinetic, DamageType::EMP]
    );
}

#[test]
fn heal_moves_every_request() {
    let mut pending = PendingHeal::new();
    pending.push(1, 5);
    pending.push(2, 6);
    let mut intents = HealIntentBuffer(vec![HealIntent { source: 3, target: 3, amount: 1 }]);
    heal_system(&mut pending, &mut intents);
    assert!(pending.entries.is_empty());
    assert_eq!(
        intents.0,
        vec![
            HealIntent { source: 3, target: 3, amount: 1 },
            HealIntent { source: 0, target: 1, amount: 5 },
            HealIntent { source: 0, target: 2, amount: 6 },
        ]
    );
}

fn status(rank: u32, source: u64, target: u64, amount: u32) -> StatusActionIntent {
    StatusActionIntent { kind: SpecialAttackKind { rank }, source, target, owner: 1, amount }
}

#[test]
fn special_attacks_resolve_one_per_target() {
    let mut input = PendingSpecialAttack {
        intents: vec![
            status(0, 5, 100, 1),
            status(2, 9, 100, 2),
            status(2, 3, 100, 3),
            status(1, 1, 200, 4),
            status(1, 1, 200, 5),
            status(0, 0, 300, 6),
        ],
    };
    let mut output = ResolvedStatusIntents::default();
    special_attack_reducer(&mut input, &mut output);
    assert!(input.intents.is_empty());
    assert_eq!(
        output.entries,
        vec![
            ResolvedStatusIntent { kind: SpecialAttackKind { rank: 2 }, target: 100, amount: 3 },
            ResolvedStatusIntent { kind: SpecialAttackKind { rank: 1 }, target: 200, amount: 4 },
            ResolvedStatusIntent { kind: SpecialAttackKind { rank: 0 }, target: 300, amount: 6 },
        ]
    );
}

#[test]
fn special_attacks_order_by_kind_then_source_then_target() {
    let mut input = PendingSpecialAttack {
        intents: vec![status(1, 4, 10, 1), status(1, 4, 5, 2), status(1, 2, 20, 3), status(3, 9, 30, 4)],
    };
    let mut output = ResolvedStatusIntents::default();
    special_attack_reducer(&mut input, &mut output);
    let targets: Vec<u64> = output.entries.iter().map(|e| e.target).collect();
    assert_eq!(targets, vec![30, 20, 5, 10]);
}

#[test]
fn special_attack_reducer_of_nothing_is_nothing() {
    let mut input = PendingSpecialAttack { intents: vec![] };
    let mut output = ResolvedStatusIntents {
        entries: vec![ResolvedStatusIntent { kind: SpecialAttackKind { rank: 0 }, target: 1, amount: 1 }],
    };
    special_attack_reducer(&mut input, &mut output);
    assert!(output.entries.is_empty());
}

#[test]
fn apply_hits_damages_then_heals_within_max() {
    assert_eq!(apply_hits(100, 100, 15, 5), 90);
    assert_eq!(apply_hits(10, 100, 50, 5), 5);
    assert_eq!(apply_hits(90, 100, 0, 50), 100);
    assert_eq!(apply_hits(u32::MAX, u32::MAX, 0, 10), u32::MAX);
    assert_eq!(apply_hits(120, 100, 0, 0), 100);
}

#[test]
fn damage_application_totals_and_marks_deaths() {
    let mut damage = DamageIntentBuffer(vec![
        DamageIntent { source: 0, target: 2, amount: 30, damage_type: DamageType::Kinetic },
        DamageIntent { source: 0, target: 1, amount: 15, damage_type: DamageType::Corrosive },
        DamageIntent { source: 0, target: 2, amount: 30, damage_type: DamageType::Sonic },
        DamageIntent { source: 0, target: 9, amount: 5, damage_type: DamageType::Sonic },
        DamageIntent { source: 0, target: 3, amount: u32::MAX, damage_type: DamageType::EMP },
        DamageIntent { source: 0, target: 3, amount: 5, damage_type: DamageType::EMP },
    ]);
    let mut heal = HealIntentBuffer(vec![
        HealIntent { source: 0, target: 1, amount: 10 },
        HealIntent { source: 0, target: 4, amount: 50 },
    ]);
    let mut bodies = vec![
        HitPoints { entity: 1, hits: 20, hits_max: 40, tough_parts: 0 },
        HitPoints { entity: 2, hits: 50, hits_max: 60, tough_parts: 0 },
        HitPoints { entity: 3, hits: 1000, hits_max: 1000, tough_parts: 0 },
        HitPoints { entity: 4, hits: 80, hits_max: 100, tough_parts: 0 },
        HitPoints { entity: 2, hits: 500, hits_max: 600, tough_parts: 0 },
        HitPoints { entity: 5, hits: 7, hits_max: 8, tough_parts: 0 },
    ];
    let destroyed = damage_application_system(&mut damage, &mut heal, &mut bodies);
    assert!(damage.0.is_empty());
    assert!(heal.0.is_empty());
    assert_eq!(destroyed, vec![2, 3]);
    assert_eq!(
        bodies,
        vec![
            HitPoints { entity: 1, hits: 15, hits_max: 40, tough_parts: 0 },
            HitPoints { entity: 2, hits: 0, hits_max: 60, tough_parts: 0 },
            HitPoints { entity: 3, hits: 0, hits_max: 1000, tough_parts: 0 },
            HitPoints { entity: 4, hits: 100, hits_max: 100, tough_parts: 0 },
            HitPoints { entity: 2, hits: 500, hits_max: 600, tough_parts: 0 },
            HitPoints { entity: 5, hits: 7, hits_max: 8, tough_parts: 0 },
        ]
    );
}

#[test]
fn registration_covers_every_type_and_part_once() {
    let mut registry = CombatRegistry::default();
    let first = register_combat_core(&mut registry);
    let second = register_combat_core(&mut registry);
    assert_eq!(registry.damage_types().len(), 6);
    assert_eq!(registry.body_parts().len(), 4);
    assert_eq!(first.len(), 3);
    assert_eq!(second.len(), 3);
    let names: Vec<(&str, &str)> =
        first.iter().map(|a| (a.action_type.as_str(), a.handler.as_str())).collect();
    assert_eq!(names, vec![("Attack", "attack"), ("RangedAttack", "ranged_attack"), ("Heal", "heal")]);
}

#[test]
fn descriptor_lists_systems_and_actions() {
    let descriptor = CombatCoreModPlugin::descriptor();
    let ids: Vec<&str> = descriptor.systems.iter().map(|s| s.system_id.as_str()).collect();
    assert_eq!(
        ids,
        vec![
            "combat-core.register",
            "combat-core.tower-auto-attack",
            "combat-core.attack",
            "combat-core.ranged-attack",
            "combat-core.heal",
            "combat-core.special-attack-reducer",
            "combat-core.damage-application",
        ]
    );
    assert_eq!(descriptor.systems[0].phase, TickPhase::Startup);
    assert_eq!(descriptor.systems[6].order, 5);
    assert_eq!(descriptor.systems[6].writes.len(), 5);
    assert_eq!(descriptor.systems[1].deterministic_iteration, vec!["Entity".to_string()]);
    assert_eq!(descriptor.config.len(), 1);
    assert_eq!(descriptor.config[0].key, "damage_multiplier");
    assert_eq!(descriptor.config[0].default, 10_000);
    assert!(!descriptor.config[0].required);
    let buffers: Vec<Option<&str>> =
        descriptor.actions.iter().map(|a| a.output_buffer.as_deref()).collect();
    assert_eq!(buffers, vec![Some("PendingDamage"), Some("PendingDamage"), Some("PendingHeal")]);
    assert_eq!(
        descriptor.actions[0].payload_schema,
        "{\"type\":\"object\",\"additionalProperties\":false}"
    );
    assert_eq!(descriptor.actions[2].command_phase, TickPhase::Command);
}

#[test]
fn ranged_and_melee_follow_the_world_names() {
    let names = DamageTypeNames {
        kinetic: "kinetic".to_string(),
        thermal: "thermal".to_string(),
        emp: "emp".to_string(),
        sonic: "sonic".to_string(),
        corrosive: "corrosive".to_string(),
        psionic: "psionic".to_string(),
    };
    let config = CombatConfig::default();
    let mut pending = PendingDamage::new();
    pending.push(1, 10, "kinetic");
    pending.push(2, 20, "Kinetic");
    pending.push(3, 30, "emp");
    let mut intents = DamageIntentBuffer(vec![]);
    attack_system(&mut pending, &mut intents, &config, &names);
    assert_eq!(intents.0.len(), 1);
    assert_eq!(intents.0[0].target, 1);
    ranged_attack_system(&mut pending, &mut intents, &config, &names);
    assert_eq!(intents.0.len(), 2);
    assert_eq!(intents.0[1].damage_type, DamageType::EMP);
    assert_eq!(pending.entries.len(), 1);
    assert_eq!(pending.entries[0].damage_type, "Kinetic");
    assert_eq!(damage_type_from_name(&names, "sonic"), Some(DamageType::Sonic));

    let towers = vec![tower_unit(1, Some(1), 5)];
    let targets = vec![target_unit(2, "W1N1", 11, 11, Some(2))];
    let mut shots = PendingDamage::new();
    tower_auto_attack_system(&mut shots, &towers, &targets, &config, &names);
    assert_eq!(shots.entries[0].damage_type, "thermal");
}

#[test]
fn tough_parts_reduce_damage() {
    assert_eq!(resistance(0), 0);
    assert_eq!(resistance(1), 1_000);
    assert_eq!(resistance(4), 4_000);
    assert_eq!(resistance(5), 5_000);
    assert_eq!(resistance(40), 5_000);
    assert_eq!(resistance(u32::MAX), 5_000);
    assert_eq!(resist(50, 0), 50);
    assert_eq!(resist(50, 1), 45);
    assert_eq!(resist(50, 3), 35);
    assert_eq!(resist(50, 9), 25);
    assert_eq!(resist(1, 1), 0);
    assert_eq!(resist(u32::MAX, 0), u32::MAX);
}

#[test]
fn tough_drone_keeps_more_hits() {
    let mut damage = DamageIntentBuffer(vec![
        DamageIntent { source: 0, target: 1, amount: 25, damage_type: DamageType::Kinetic },
        DamageIntent { source: 0, target: 1, amount: 25, damage_type: DamageType::Psionic },
        DamageIntent { source: 0, target: 2, amount: 50, damage_type: DamageType::Kinetic },
    ]);
    let mut heal = HealIntentBuffer(vec![]);
    let mut bodies = vec![
        HitPoints { entity: 1, hits: 100, hits_max: 100, tough_parts: 1 },
        HitPoints { entity: 2, hits: 100, hits_max: 100, tough_parts: 0 },
    ];
    let destroyed = damage_application_system(&mut damage, &mut heal, &mut bodies);
    assert!(destroyed.is_empty());
    assert_eq!(bodies[0].hits, 55);
    assert_eq!(bodies[1].hits, 50);
    assert!(bodies[0].hits > 50);
}

#[test]
fn tough_parts_are_counted() {
    assert_eq!(tough_parts_of(&vec![]), 0);
    assert_eq!(
        tough_parts_of(&vec![BodyPart::Tough, BodyPart::Attack, BodyPart::Tough, BodyPart::Heal]),
        2
    );
}

fn settle(damage: Vec<DamageIntent>, heal: Vec<HealIntent>, bodies: &[HitPoints]) -> (Vec<HitPoints>, Vec<u64>) {
    let mut damage = DamageIntentBuffer(damage);
    let mut heal = HealIntentBuffer(heal);
    let mut bodies = bodies.to_vec();
    let destroyed = damage_application_system(&mut damage, &mut heal, &mut bodies);
    (bodies, destroyed)
}

fn hit(target: u64, amount: u32) -> DamageIntent {
    DamageIntent { source: 0, target, amount, damage_type: DamageType::Kinetic }
}

#[test]
fn damage_application_depends_only_on_totals() {
    let bodies = [
        HitPoints { entity: 1, hits: 90, hits_max: 100, tough_parts: 1 },
        HitPoints { entity: 2, hits: 30, hits_max: 40, tough_parts: 0 },
    ];
    let heal = vec![HealIntent { source: 0, target: 1, amount: 5 }];
    let whole = settle(vec![hit(1, 2), hit(2, 35)], heal.clone(), &bodies);
    let split = settle(vec![hit(2, 20), hit(1, 1), hit(2, 15), hit(1, 1)], heal.clone(), &bodies);
    let reordered = settle(vec![hit(1, 1), hit(2, 15), hit(1, 1), hit(2, 20)], heal, &bodies);
    assert_eq!(whole, split);
    assert_eq!(whole, reordered);
    assert_eq!(whole.0[0].hits, 94);
    assert_eq!(whole.0[1].hits, 0);
    assert_eq!(whole.1, vec![2]);
}

#[test]
fn more_damage_never_leaves_more_hits() {
    let bodies = [HitPoints { entity: 1, hits: 60, hits_max: 100, tough_parts: 2 }];
    let mut last = u32::MAX;
    for amount in [0, 1, 9, 10, 50, 74, 75, 76, 1000] {
        let (after, _) = settle(vec![hit(1, amount)], vec![], &bodies);
        assert!(after[0].hits <= last);
        last = after[0].hits;
    }
    let mut last = 0;
    for amount in [0, 1, 20, 40, 41, 500] {
        let (after, _) = settle(vec![hit(1, 30)], vec![HealIntent { source: 0, target: 1, amount }], &bodies);
        assert!(after[0].hits >= last);
        last = after[0].hits;
    }
    assert_eq!(last, 100);
}

#[test]
fn special_attack_order_of_arrival_does_not_matter() {
    let attacks = vec![
        status(1, 4, 10, 1),
        status(2, 4, 10, 2),
        status(1, 2, 20, 3),
        status(1, 3, 20, 4),
        status(0, 9, 30, 5),
    ];
    let mut reversed = attacks.clone();
    reversed.reverse();
    let mut first = PendingSpecialAttack { intents: attacks };
    let mut second = PendingSpecialAttack { intents: reversed };
    let mut out1 = ResolvedStatusIntents::default();
    let mut out2 = ResolvedStatusIntents::default();
    special_attack_reducer(&mut first, &mut out1);
    special_attack_reducer(&mut second, &mut out2);
    assert_eq!(out1.entries, out2.entries);
    assert_eq!(out1.entries.len(), 3);
    assert_eq!(out1.entries[0].amount, 2);
    assert_eq!(out1.entries[1].amount, 3);
}
