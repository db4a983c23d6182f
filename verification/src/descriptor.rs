use vstd::prelude::*;
use vstd::string::*;

use crate::config::BASIS_POINTS_ONE;
use crate::registry::{combat_action_names, combat_actions, binding_views};

verus! {

/// The phase of a tick in which a system runs or a command is taken.
#[derive(Clone, Copy, Debug, PartialEq, Eq, Structural)]
pub enum TickPhase {
    Startup,
    Update,
    Command,
}

/// How a configuration value is read.
#[derive(Clone, Copy, Debug, PartialEq, Eq, Structural)]
pub enum ConfigValueType {
    FixedBasisPoints,
}

/// A configuration field that the mod accepts.
#[derive(Debug)]
pub struct ConfigFieldDescriptor {
    pub key: String,
    pub value_type: ConfigValueType,
    pub default: u32,
    pub required: bool,
}

/// A system of the mod, with the resources it reads and writes and the
/// buffers it fills and drains.
#[derive(Debug)]
pub struct SystemDescriptor {
    pub system_id: String,
    pub version: String,
    pub phase: TickPhase,
    pub order: u32,
    pub reads: Vec<String>,
    pub writes: Vec<String>,
    pub produces_buffers: Vec<String>,
    pub consumes_buffers: Vec<String>,
    pub deterministic_iteration: Vec<String>,
}

/// An action that players can order, with the JSON schema of its payload
/// (as text) and the buffer its handler fills.
#[derive(Debug)]
pub struct ActionDescriptor {
    pub action_type: String,
    pub handler: String,
    pub payload_schema: String,
    pub command_phase: TickPhase,
    pub output_buffer: Option<String>,
}

/// What the mod declares about itself to the engine.
#[derive(Debug)]
pub struct PluginDescriptor {
    pub id: String,
    pub version: String,
    pub dependencies: Vec<String>,
    pub config: Vec<ConfigFieldDescriptor>,
    pub systems: Vec<SystemDescriptor>,
    pub actions: Vec<ActionDescriptor>,
}

/// The characters of each string of a list.
pub open spec fn texts(strings: Seq<String>) -> Seq<Seq<char>> {
    strings.map_values(|s: String| s@)
}

pub struct ConfigFieldView {
    pub key: Seq<char>,
    pub value_type: ConfigValueType,
    pub default: u32,
    pub required: bool,
}

impl View for ConfigFieldDescriptor {
    type V = ConfigFieldView;

    open spec fn view(&self) -> ConfigFieldView {
        ConfigFieldView {
            key: self.key@,
            value_type: self.value_type,
            default: self.default,
            required: self.required,
        }
    }
}

pub struct SystemView {
    pub system_id: Seq<char>,
    pub version: Seq<char>,
    pub phase: TickPhase,
    pub order: u32,
    pub reads: Seq<Seq<char>>,
    pub writes: Seq<Seq<char>>,
    pub produces_buffers: Seq<Seq<char>>,
    pub consumes_buffers: Seq<Seq<char>>,
    pub deterministic_iteration: Seq<Seq<char>>,
}

impl View for SystemDescriptor {
    type V = SystemView;

    open spec fn view(&self) -> SystemView {
        SystemView {
            system_id: self.system_id@,
            version: self.version@,
            phase: self.phase,
            order: self.order,
            reads: texts(self.reads@),
            writes: texts(self.writes@),
            produces_buffers: texts(self.produces_buffers@),
            consumes_buffers: texts(self.consumes_buffers@),
            deterministic_iteration: texts(self.deterministic_iteration@),
        }
    }
}

pub struct ActionView {
    pub action_type: Seq<char>,
    pub handler: Seq<char>,
    pub payload_schema: Seq<char>,
    pub command_phase: TickPhase,
    pub output_buffer: Option<Seq<char>>,
}

impl View for ActionDescriptor {
    type V = ActionView;

    open spec fn view(&self) -> ActionView {
        ActionView {
            action_type: self.action_type@,
            handler: self.handler@,
            payload_schema: self.payload_schema@,
            command_phase: self.command_phase,
            output_buffer: match self.output_buffer {
                Some(b) => Some(b@),
                None => None,
            },
        }
    }
}

pub struct PluginView {
    pub id: Seq<char>,
    pub version: Seq<char>,
    pub dependencies: Seq<Seq<char>>,
    pub config: Seq<ConfigFieldView>,
    pub systems: Seq<SystemView>,
    pub actions: Seq<ActionView>,
}

impl View for PluginDescriptor {
    type V = PluginView;

    open spec fn view(&self) -> PluginView {
        PluginView {
            id: self.id@,
            version: self.version@,
            dependencies: texts(self.dependencies@),
            config: self.config@.map_values(|c: ConfigFieldDescriptor| c@),
            systems: self.systems@.map_values(|s: SystemDescriptor| s@),
            actions: self.actions@.map_values(|a: ActionDescriptor| a@),
        }
    }
}

/// The declaration of one combat-core system of version 0.1.0 whose
/// entities are visited in entity order.
pub open spec fn system_view(
    name: Seq<char>,
    phase: TickPhase,
    order: u32,
    reads: Seq<Seq<char>>,
    writes: Seq<Seq<char>>,
    produces_buffers: Seq<Seq<char>>,
    consumes_buffers: Seq<Seq<char>>,
) -> SystemView {
    SystemView {
        system_id: "combat-core."@ + name,
        version: "0.1.0"@,
        phase,
        order,
        reads,
        writes,
        produces_buffers,
        consumes_buffers,
        deterministic_iteration: seq!["Entity"@],
    }
}

/// The systems of combat-core, in declaration order.
pub open spec fn combat_systems() -> Seq<SystemView> {
    seq![
        system_view(
            "register"@,
            TickPhase::Startup,
            0,
            seq![],
            seq!["ActionRegistry"@, "CombatRegistry"@],
            seq![],
            seq![],
        ),
        system_view(
            "tower-auto-attack"@,
            TickPhase::Update,
            0,
            seq!["Tower"@, "Position"@, "Owner"@, "Drone"@, "Structure"@, "CombatConfig"@],
            seq!["PendingDamage"@],
            seq!["PendingDamage"@],
            seq![],
        ),
        system_view(
            "attack"@,
            TickPhase::Update,
            1,
            seq!["PendingDamage"@, "CombatConfig"@],
            seq!["PendingDamage"@, "DamageIntentBuffer"@],
            seq!["DamageIntentBuffer"@],
            seq!["PendingDamage"@],
        ),
        system_view(
            "ranged-attack"@,
            TickPhase::Update,
            2,
            seq!["PendingDamage"@, "CombatConfig"@],
            seq!["PendingDamage"@, "DamageIntentBuffer"@],
            seq!["DamageIntentBuffer"@],
            seq!["PendingDamage"@],
        ),
        system_view(
            "heal"@,
            TickPhase::Update,
            3,
            seq!["PendingHeal"@],
            seq!["PendingHeal"@, "HealIntentBuffer"@],
            seq!["HealIntentBuffer"@],
            seq!["PendingHeal"@],
        ),
        system_view(
            "special-attack-reducer"@,
            TickPhase::Update,
            4,
            seq!["PendingSpecialAttack"@],
            seq!["PendingSpecialAttack"@, "ResolvedStatusIntents"@],
            seq!["ResolvedStatusIntents"@],
            seq!["PendingSpecialAttack"@],
        ),
        system_view(
            "damage-application"@,
            TickPhase::Update,
            5,
            seq!["DamageIntentBuffer"@, "HealIntentBuffer"@, "Drone"@, "Structure"@],
            seq!["DamageIntentBuffer"@, "HealIntentBuffer"@, "Drone"@, "Structure"@, "DeathMark"@],
            seq![],
            seq!["DamageIntentBuffer"@, "HealIntentBuffer"@],
        ),
    ]
}

/// The JSON schema of every combat action's payload: an object with no properties.
pub open spec fn empty_object_schema() -> Seq<char> {
    "{\"type\":\"object\",\"additionalProperties\":false}"@
}

/// The buffer that the handler of an action fills.
pub open spec fn action_output_buffer(action_type: Seq<char>) -> Seq<char> {
    if action_type == "Heal"@ {
        "PendingHeal"@
    } else {
        "PendingDamage"@
    }
}

/// The declaration of a combat action.
pub open spec fn action_view(binding: (Seq<char>, Seq<char>)) -> ActionView {
    ActionView {
        action_type: binding.0,
        handler: binding.1,
        payload_schema: empty_object_schema(),
        command_phase: TickPhase::Command,
        output_buffer: Some(action_output_buffer(binding.0)),
    }
}

/// Everything that combat-core declares about itself.
pub open spec fn combat_core_descriptor() -> PluginView {
    PluginView {
        id: "combat-core"@,
        version: "0.1.0"@,
        dependencies: seq![],
        config: seq![
            ConfigFieldView {
                key: "damage_multiplier"@,
                value_type: ConfigValueType::FixedBasisPoints,
                default: BASIS_POINTS_ONE,
                required: false,
            },
        ],
        systems: combat_systems(),
        actions: combat_action_names().map_values(|b: (Seq<char>, Seq<char>)| action_view(b)),
    }
}

/// The owned copies of a list of names.
fn owned_names(names: &[&str]) -> (owned: Vec<String>)
    ensures
        texts(owned@) == names@.map_values(|n: &str| n@),
{
    let mut owned: Vec<String> = Vec::new();
    let mut i: usize = 0;
    while i < names.len()
        invariant
            0 <= i <= names.len(),
            texts(owned@) == names@.take(i as int).map_values(|n: &str| n@),
        decreases names.len() - i,
    {
        let name = names[i].to_owned();
        let ghost before = owned@;
        owned.push(name);
        proof {
            assert(texts(owned@) =~= texts(before).push(name@));
            assert(names@.take(i + 1) =~= names@.take(i as int).push(names@[i as int]));
            assert(names@.take(i + 1).map_values(|n: &str| n@) =~= names@.take(i as int).map_values(
                |n: &str| n@,
            ).push(names@[i as int]@));
        }
        i = i + 1;
    }
    proof {
        assert(names@.take(names.len() as int) =~= names@);
    }
    owned
}

/// The characters of each name of a list.
pub open spec fn name_texts(names: Seq<&str>) -> Seq<Seq<char>> {
    names.map_values(|n: &str| n@)
}

/// Declares one combat-core system.
fn system(
    name: &str,
    phase: TickPhase,
    order: u32,
    reads: &[&str],
    writes: &[&str],
    produces_buffers: &[&str],
    consumes_buffers: &[&str],
) -> (declared: SystemDescriptor)
    ensures
        declared@ == system_view(
            name@,
            phase,
            order,
            name_texts(reads@),
            name_texts(writes@),
            name_texts(produces_buffers@),
            name_texts(consumes_buffers@),
        ),
{
    let entity = ["Entity"];
    let iteration = owned_names(&entity);
    proof {
        assert(entity@.map_values(|n: &str| n@) =~= seq!["Entity"@]);
    }
    SystemDescriptor {
        system_id: "combat-core.".to_owned().concat(name),
        version: "0.1.0".to_owned(),
        phase,
        order,
        reads: owned_names(reads),
        writes: owned_names(writes),
        produces_buffers: owned_names(produces_buffers),
        consumes_buffers: owned_names(consumes_buffers),
        deterministic_iteration: iteration,
    }
}

/// The buffer that the handler of `action_type` fills.
fn output_buffer_for(action_type: &String) -> (buffer: String)
    ensures
        buffer@ == action_output_buffer(action_type@),
{
    let heal = "Heal".to_owned();
    if *action_type == heal {
        "PendingHeal".to_owned()
    } else {
        "PendingDamage".to_owned()
    }
}

/// The combat-core mod.
#[derive(Clone, Copy, Debug, Default)]
pub struct CombatCoreModPlugin;

impl CombatCoreModPlugin {
    /// Everything that combat-core declares about itself: its identity, its
    /// configuration, its systems and its actions.
    pub fn descriptor() -> (declared: PluginDescriptor)
        ensures
            declared@ == combat_core_descriptor(),
    {
        let none: [&str; 0] = [];
        let mut systems: Vec<SystemDescriptor> = Vec::new();

        let register_writes = ["ActionRegistry", "CombatRegistry"];
        let s0 = system("register", TickPhase::Startup, 0, &none, &register_writes, &none, &none);
        proof {
            assert(name_texts(none@) =~= seq![]);
            assert(name_texts(register_writes@) =~= seq!["ActionRegistry"@, "CombatRegistry"@]);
        }
        let ghost v0 = s0@;
        systems.push(s0);

        let tower_reads = ["Tower", "Position", "Owner", "Drone", "Structure", "CombatConfig"];
        let pending_damage = ["PendingDamage"];
        let s1 = system(
            "tower-auto-attack",
            TickPhase::Update,
            0,
            &tower_reads,
            &pending_damage,
            &pending_damage,
            &none,
        );
        proof {
            assert(name_texts(tower_reads@) =~= seq![
                "Tower"@,
                "Position"@,
                "Owner"@,
                "Drone"@,
                "Structure"@,
                "CombatConfig"@,
            ]);
            assert(name_texts(pending_damage@) =~= seq!["PendingDamage"@]);
        }
        let ghost v1 = s1@;
        systems.push(s1);

        let attack_reads = ["PendingDamage", "CombatConfig"];
        let attack_writes = ["PendingDamage", "DamageIntentBuffer"];
        let damage_intents = ["DamageIntentBuffer"];
        let s2 = system(
            "attack",
            TickPhase::Update,
            1,
            &attack_reads,
            &attack_writes,
            &damage_intents,
            &pending_damage,
        );
        let s3 = system(
            "ranged-attack",
            TickPhase::Update,
            2,
            &attack_reads,
            &attack_writes,
            &damage_intents,
            &pending_damage,
        );
        proof {
            assert(name_texts(attack_reads@) =~= seq!["PendingDamage"@, "CombatConfig"@]);
            assert(name_texts(attack_writes@) =~= seq!["PendingDamage"@, "DamageIntentBuffer"@]);
            assert(name_texts(damage_intents@) =~= seq!["DamageIntentBuffer"@]);
        }
        let ghost v2 = s2@;
        let ghost v3 = s3@;
        systems.push(s2);
        systems.push(s3);

        let heal_reads = ["PendingHeal"];
        let heal_writes = ["PendingHeal", "HealIntentBuffer"];
        let heal_intents = ["HealIntentBuffer"];
        let s4 = system("heal", TickPhase::Update, 3, &heal_reads, &heal_writes, &heal_intents, &heal_reads);
        proof {
            assert(name_texts(heal_reads@) =~= seq!["PendingHeal"@]);
            assert(name_texts(heal_writes@) =~= seq!["PendingHeal"@, "HealIntentBuffer"@]);
            assert(name_texts(heal_intents@) =~= seq!["HealIntentBuffer"@]);
        }
        let ghost v4 = s4@;
        systems.push(s4);

        let special_reads = ["PendingSpecialAttack"];
        let special_writes = ["PendingSpecialAttack", "ResolvedStatusIntents"];
        let resolved = ["ResolvedStatusIntents"];
        let s5 = system(
            "special-attack-reducer",
            TickPhase::Update,
            4,
            &special_reads,
            &special_writes,
            &resolved,
            &special_reads,
        );
        proof {
            assert(name_texts(special_reads@) =~= seq!["PendingSpecialAttack"@]);
            assert(name_texts(special_writes@) =~= seq![
                "PendingSpecialAttack"@,
                "ResolvedStatusIntents"@,
            ]);
            assert(name_texts(resolved@) =~= seq!["ResolvedStatusIntents"@]);
        }
        let ghost v5 = s5@;
        systems.push(s5);

        let application_reads = ["DamageIntentBuffer", "HealIntentBuffer", "Drone", "Structure"];
        let application_writes = [
            "DamageIntentBuffer",
            "HealIntentBuffer",
            "Drone",
            "Structure",
            "DeathMark",
        ];
        let intent_buffers = ["DamageIntentBuffer", "HealIntentBuffer"];
        let s6 = system(
            "damage-application",
            TickPhase::Update,
            5,
            &application_reads,
            &application_writes,
            &none,
            &intent_buffers,
        );
        proof {
            assert(name_texts(application_reads@) =~= seq![
                "DamageIntentBuffer"@,
                "HealIntentBuffer"@,
                "Drone"@,
                "Structure"@,
            ]);
            assert(name_texts(application_writes@) =~= seq![
                "DamageIntentBuffer"@,
                "HealIntentBuffer"@,
                "Drone"@,
                "Structure"@,
                "DeathMark"@,
            ]);
            assert(name_texts(intent_buffers@) =~= seq!["DamageIntentBuffer"@, "HealIntentBuffer"@]);
        }
        let ghost v6 = s6@;
        systems.push(s6);
        proof {
            assert(systems@.map_values(|s: SystemDescriptor| s@) =~= seq![v0, v1, v2, v3, v4, v5, v6]);
            assert(seq![v0, v1, v2, v3, v4, v5, v6] =~= combat_systems());
        }

        let bindings = combat_actions();
        let mut actions: Vec<ActionDescriptor> = Vec::new();
        let mut i: usize = 0;
        while i < bindings.len()
            invariant
                0 <= i <= bindings.len(),
                binding_views(bindings@) == combat_action_names(),
                actions@.map_values(|a: ActionDescriptor| a@) == binding_views(bindings@).take(
                    i as int,
                ).map_values(|b: (Seq<char>, Seq<char>)| action_view(b)),
            decreases bindings.len() - i,
        {
            let b = &bindings[i];
            let action = ActionDescriptor {
                action_type: b.action_type.clone(),
                handler: b.handler.clone(),
                payload_schema: "{\"type\":\"object\",\"additionalProperties\":false}".to_owned(),
                command_phase: TickPhase::Command,
                output_buffer: Some(output_buffer_for(&b.action_type)),
            };
            let ghost before = actions@;
            actions.push(action);
            proof {
                assert(binding_views(bindings@)[i as int] == b@);
                assert(action@ == action_view(b@));
                assert(binding_views(bindings@).take(i + 1) =~= binding_views(bindings@).take(
                    i as int,
                ).push(b@));
                assert(actions@.map_values(|a: ActionDescriptor| a@) =~= before.map_values(
                    |a: ActionDescriptor| a@,
                ).push(action@));
                assert(binding_views(bindings@).take(i + 1).map_values(
                    |b: (Seq<char>, Seq<char>)| action_view(b),
                ) =~= binding_views(bindings@).take(i as int).map_values(
                    |b: (Seq<char>, Seq<char>)| action_view(b),
                ).push(action_view(b@)));
            }
            i = i + 1;
        }
        proof {
            assert(binding_views(bindings@).take(bindings.len() as int) =~= binding_views(bindings@));
        }

        let mut config: Vec<ConfigFieldDescriptor> = Vec::new();
        config.push(
            ConfigFieldDescriptor {
                key: "damage_multiplier".to_owned(),
                value_type: ConfigValueType::FixedBasisPoints,
                default: BASIS_POINTS_ONE,
                required: false,
            },
        );
        let dependencies: Vec<String> = Vec::new();
        let declared = PluginDescriptor {
            id: "combat-core".to_owned(),
            version: "0.1.0".to_owned(),
            dependencies,
            config,
            systems,
            actions,
        };
        proof {
            assert(declared@.dependencies =~= seq![]);
            assert(declared@.config =~= combat_core_descriptor().config);
        }
        declared
    }
}

} // verus!
