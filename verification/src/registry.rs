use vstd::prelude::*;

use crate::kinds::{BodyPart, DamageType};

verus! {

/// The damage types and body parts that the combat rules know; each is
/// registered once.
#[derive(Debug)]
pub struct CombatRegistry {
    damage_types: Vec<DamageType>,
    body_parts: Vec<BodyPart>,
}

/// Every damage type, in registration order.
pub open spec fn combat_damage_types() -> Seq<DamageType> {
    seq![
        DamageType::Kinetic,
        DamageType::Thermal,
        DamageType::EMP,
        DamageType::Sonic,
        DamageType::Corrosive,
        DamageType::Psionic,
    ]
}

/// The body parts that combat-core gives meaning to, in registration order.
pub open spec fn combat_body_parts() -> Seq<BodyPart> {
    seq![BodyPart::Attack, BodyPart::RangedAttack, BodyPart::Heal, BodyPart::Tough]
}

impl Default for CombatRegistry {
    fn default() -> (registry: Self)
        ensures
            registry.damage_type_list() == Seq::<DamageType>::empty(),
            registry.body_part_list() == Seq::<BodyPart>::empty(),
    {
        CombatRegistry { damage_types: Vec::new(), body_parts: Vec::new() }
    }
}

impl CombatRegistry {
    /// Nothing is registered twice.
    #[verifier::type_invariant]
    spec fn registered_once(self) -> bool {
        self.damage_types@.no_duplicates() && self.body_parts@.no_duplicates()
    }

    /// The registered damage types, in registration order.
    pub closed spec fn damage_type_list(self) -> Seq<DamageType> {
        self.damage_types@
    }

    /// The registered body parts, in registration order.
    pub closed spec fn body_part_list(self) -> Seq<BodyPart> {
        self.body_parts@
    }

    /// The registered damage types, each once.
    pub fn damage_types(&self) -> (list: &Vec<DamageType>)
        ensures
            list@ == self.damage_type_list(),
            list@.no_duplicates(),
    {
        proof {
            use_type_invariant(self);
        }
        &self.damage_types
    }

    /// The registered body parts, each once.
    pub fn body_parts(&self) -> (list: &Vec<BodyPart>)
        ensures
            list@ == self.body_part_list(),
            list@.no_duplicates(),
    {
        proof {
            use_type_invariant(self);
        }
        &self.body_parts
    }

    /// Adds a damage type unless it is registered already.
    pub fn register_damage_type(&mut self, damage_type: DamageType)
        ensures
            final(self).damage_type_list().to_set() == old(self).damage_type_list().to_set().insert(
                damage_type,
            ),
            final(self).damage_type_list().no_duplicates(),
            final(self).body_part_list() == old(self).body_part_list(),
    {
        proof {
            use_type_invariant(&*self);
        }
        let mut i: usize = 0;
        while i < self.damage_types.len()
            invariant
                0 <= i <= self.damage_types.len(),
                self.damage_types@ == old(self).damage_types@,
                self.body_parts@ == old(self).body_parts@,
                self.damage_types@.no_duplicates(),
                forall|j: int| 0 <= j < i ==> self.damage_types@[j] != damage_type,
            decreases self.damage_types.len() - i,
        {
            if self.damage_types[i] == damage_type {
                proof {
                    assert(self.damage_types@.to_set() =~= old(self).damage_types@.to_set().insert(
                        damage_type,
                    ));
                }
                return;
            }
            i = i + 1;
        }
        let mut list: Vec<DamageType> = Vec::new();
        std::mem::swap(&mut list, &mut self.damage_types);
        let ghost before = list@;
        list.push(damage_type);
        proof {
            Seq::<DamageType>::lemma_to_set_insert_commutes(before, damage_type);
            assert(list@ =~= before + seq![damage_type]);
            assert forall|a: int, b: int| 0 <= a < b < list@.len() implies list@[a] != list@[b] by {
                if b < before.len() {
                    assert(list@[a] == before[a] && list@[b] == before[b]);
                } else {
                    assert(list@[a] == before[a]);
                }
            }
        }
        self.damage_types = list;
    }

    /// Adds a body part unless it is registered already.
    pub fn register_body_part(&mut self, part: BodyPart)
        ensures
            final(self).body_part_list().to_set() == old(self).body_part_list().to_set().insert(part),
            final(self).body_part_list().no_duplicates(),
            final(self).damage_type_list() == old(self).damage_type_list(),
    {
        proof {
            use_type_invariant(&*self);
        }
        let mut i: usize = 0;
        while i < self.body_parts.len()
            invariant
                0 <= i <= self.body_parts.len(),
                self.damage_types@ == old(self).damage_types@,
                self.body_parts@ == old(self).body_parts@,
                self.body_parts@.no_duplicates(),
                forall|j: int| 0 <= j < i ==> self.body_parts@[j] != part,
            decreases self.body_parts.len() - i,
        {
            if self.body_parts[i] == part {
                proof {
                    assert(self.body_parts@.to_set() =~= old(self).body_parts@.to_set().insert(part));
                }
                return;
            }
            i = i + 1;
        }
        let mut list: Vec<BodyPart> = Vec::new();
        std::mem::swap(&mut list, &mut self.body_parts);
        let ghost before = list@;
        list.push(part);
        proof {
            Seq::<BodyPart>::lemma_to_set_insert_commutes(before, part);
            assert(list@ =~= before + seq![part]);
            assert forall|a: int, b: int| 0 <= a < b < list@.len() implies list@[a] != list@[b] by {
                if b < before.len() {
                    assert(list@[a] == before[a] && list@[b] == before[b]);
                } else {
                    assert(list@[a] == before[a]);
                }
            }
        }
        self.body_parts = list;
    }
}

/// Registration covers every damage type and every combat body part.
pub proof fn lemma_registration_covers_all(t: DamageType, p: BodyPart)
    ensures
        combat_damage_types().contains(t),
        combat_body_parts().contains(p),
        combat_damage_types().len() == 6,
        combat_body_parts().len() == 4,
{
    match t {
        DamageType::Kinetic => assert(combat_damage_types()[0] == t),
        DamageType::Thermal => assert(combat_damage_types()[1] == t),
        DamageType::EMP => assert(combat_damage_types()[2] == t),
        DamageType::Sonic => assert(combat_damage_types()[3] == t),
        DamageType::Corrosive => assert(combat_damage_types()[4] == t),
        DamageType::Psionic => assert(combat_damage_types()[5] == t),
    }
    match p {
        BodyPart::Attack => assert(combat_body_parts()[0] == p),
        BodyPart::RangedAttack => assert(combat_body_parts()[1] == p),
        BodyPart::Heal => assert(combat_body_parts()[2] == p),
        BodyPart::Tough => assert(combat_body_parts()[3] == p),
    }
}

/// Registering combat-core again changes nothing: the registered damage
/// types and body parts after a second registration are those after the first.
pub proof fn lemma_registration_idempotent(damage_types: Set<DamageType>, body_parts: Set<BodyPart>)
    ensures
        (damage_types + combat_damage_types().to_set()) + combat_damage_types().to_set() == damage_types
            + combat_damage_types().to_set(),
        (body_parts + combat_body_parts().to_set()) + combat_body_parts().to_set() == body_parts
            + combat_body_parts().to_set(),
{
    assert((damage_types + combat_damage_types().to_set()) + combat_damage_types().to_set() =~= damage_types
        + combat_damage_types().to_set());
    assert((body_parts + combat_body_parts().to_set()) + combat_body_parts().to_set() =~= body_parts
        + combat_body_parts().to_set());
}

/// An action that players can order, and the handler that carries it out.
#[derive(Debug)]
pub struct ActionBinding {
    pub action_type: String,
    pub handler: String,
}

impl View for ActionBinding {
    type V = (Seq<char>, Seq<char>);

    open spec fn view(&self) -> (Seq<char>, Seq<char>) {
        (self.action_type@, self.handler@)
    }
}

/// The combat actions and their handlers, in registration order.
pub open spec fn combat_action_names() -> Seq<(Seq<char>, Seq<char>)> {
    seq![("Attack"@, "attack"@), ("RangedAttack"@, "ranged_attack"@), ("Heal"@, "heal"@)]
}

/// The views of a list of action bindings.
pub open spec fn binding_views(actions: Seq<ActionBinding>) -> Seq<(Seq<char>, Seq<char>)> {
    actions.map_values(|a: ActionBinding| a@)
}

fn binding(action_type: &str, handler: &str) -> (b: ActionBinding)
    ensures
        b@ == (action_type@, handler@),
{
    ActionBinding { action_type: action_type.to_owned(), handler: handler.to_owned() }
}

/// The combat actions and their handlers.
pub fn combat_actions() -> (actions: Vec<ActionBinding>)
    ensures
        binding_views(actions@) == combat_action_names(),
{
    let mut actions: Vec<ActionBinding> = Vec::new();
    actions.push(binding("Attack", "attack"));
    actions.push(binding("RangedAttack", "ranged_attack"));
    actions.push(binding("Heal", "heal"));
    proof {
        assert(binding_views(actions@) =~= combat_action_names());
    }
    actions
}

/// Registers every damage type and every combat body part, and returns the
/// combat actions that the action registry is to learn.
pub fn register_combat_core(registry: &mut CombatRegistry) -> (actions: Vec<ActionBinding>)
    ensures
        binding_views(actions@) == combat_action_names(),
        final(registry).damage_type_list().to_set() == old(registry).damage_type_list().to_set()
            + combat_damage_types().to_set(),
        final(registry).body_part_list().to_set() == old(registry).body_part_list().to_set()
            + combat_body_parts().to_set(),
        final(registry).damage_type_list().no_duplicates(),
        final(registry).body_part_list().no_duplicates(),
{
    let actions = combat_actions();
    let ghost t0 = registry.damage_type_list().to_set();
    let ghost p0 = registry.body_part_list().to_set();
    registry.register_damage_type(DamageType::Kinetic);
    registry.register_damage_type(DamageType::Thermal);
    registry.register_damage_type(DamageType::EMP);
    registry.register_damage_type(DamageType::Sonic);
    registry.register_damage_type(DamageType::Corrosive);
    registry.register_damage_type(DamageType::Psionic);
    registry.register_body_part(BodyPart::Attack);
    registry.register_body_part(BodyPart::RangedAttack);
    registry.register_body_part(BodyPart::Heal);
    registry.register_body_part(BodyPart::Tough);
    proof {
        assert(combat_damage_types().to_set() =~= set![
            DamageType::Kinetic,
            DamageType::Thermal,
            DamageType::EMP,
            DamageType::Sonic,
            DamageType::Corrosive,
            DamageType::Psionic,
        ]) by {
            assert forall|x: DamageType| combat_damage_types().contains(x) <==> set![
                DamageType::Kinetic,
                DamageType::Thermal,
                DamageType::EMP,
                DamageType::Sonic,
                DamageType::Corrosive,
                DamageType::Psionic,
            ].contains(x) by {
                if set![
                    DamageType::Kinetic,
                    DamageType::Thermal,
                    DamageType::EMP,
                    DamageType::Sonic,
                    DamageType::Corrosive,
                    DamageType::Psionic,
                ].contains(x) {
                    match x {
                        DamageType::Kinetic => assert(combat_damage_types()[0] == x),
                        DamageType::Thermal => assert(combat_damage_types()[1] == x),
                        DamageType::EMP => assert(combat_damage_types()[2] == x),
                        DamageType::Sonic => assert(combat_damage_types()[3] == x),
                        DamageType::Corrosive => assert(combat_damage_types()[4] == x),
                        DamageType::Psionic => assert(combat_damage_types()[5] == x),
                    }
                }
            }
        }
        assert(combat_body_parts().to_set() =~= set![
            BodyPart::Attack,
            BodyPart::RangedAttack,
            BodyPart::Heal,
            BodyPart::Tough,
        ]) by {
            assert forall|x: BodyPart| combat_body_parts().contains(x) <==> set![
                BodyPart::Attack,
                BodyPart::RangedAttack,
                BodyPart::Heal,
                BodyPart::Tough,
            ].contains(x) by {
                if set![BodyPart::Attack, BodyPart::RangedAttack, BodyPart::Heal, BodyPart::Tough].contains(
                    x,
                ) {
                    match x {
                        BodyPart::Attack => assert(combat_body_parts()[0] == x),
                        BodyPart::RangedAttack => assert(combat_body_parts()[1] == x),
                        BodyPart::Heal => assert(combat_body_parts()[2] == x),
                        BodyPart::Tough => assert(combat_body_parts()[3] == x),
                    }
                }
            }
        }
        assert(registry.damage_type_list().to_set() =~= t0 + combat_damage_types().to_set());
        assert(registry.body_part_list().to_set() =~= p0 + combat_body_parts().to_set());
    }
    actions
}

} // verus!
