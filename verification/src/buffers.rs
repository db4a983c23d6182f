use vstd::prelude::*;

use crate::kinds::{DamageType, SpecialAttackKind};

verus! {

/// A request to damage `target` (an entity, by its bits) that has not yet
/// been turned into an intent; the damage type travels by name.
#[derive(Debug)]
pub struct PendingDamageEntry {
    pub target: u64,
    pub amount: u32,
    pub damage_type: String,
}

/// What a pending damage request says, with the damage type's name as characters.
pub struct PendingDamageView {
    pub target: u64,
    pub amount: u32,
    pub damage_type: Seq<char>,
}

impl View for PendingDamageEntry {
    type V = PendingDamageView;

    open spec fn view(&self) -> PendingDamageView {
        PendingDamageView { target: self.target, amount: self.amount, damage_type: self.damage_type@ }
    }
}

impl PendingDamageEntry {
    /// A copy of this request.
    pub fn duplicate(&self) -> (copy: Self)
        ensures
            copy@ == self@,
    {
        PendingDamageEntry {
            target: self.target,
            amount: self.amount,
            damage_type: self.damage_type.clone(),
        }
    }
}

/// The pending damage requests of a tick, in the order they were made.
#[derive(Debug)]
pub struct PendingDamage {
    pub entries: Vec<PendingDamageEntry>,
}

/// The views of a sequence of pending damage requests.
pub open spec fn damage_request_views(entries: Seq<PendingDamageEntry>) -> Seq<PendingDamageView> {
    entries.map_values(|e: PendingDamageEntry| e@)
}

impl View for PendingDamage {
    type V = Seq<PendingDamageView>;

    open spec fn view(&self) -> Seq<PendingDamageView> {
        damage_request_views(self.entries@)
    }
}

impl PendingDamage {
    pub fn new() -> (pending: Self)
        ensures
            pending@ == Seq::<PendingDamageView>::empty(),
    {
        PendingDamage { entries: Vec::new() }
    }

    /// Adds a request to damage `target` by `amount` of the damage type named `damage_type`.
    pub fn push(&mut self, target: u64, amount: u32, damage_type: &str)
        ensures
            final(self)@ == old(self)@.push(
                PendingDamageView { target, amount, damage_type: damage_type@ },
            ),
    {
        let entry = PendingDamageEntry { target, amount, damage_type: damage_type.to_owned() };
        self.entries.push(entry);
        proof {
            assert(damage_request_views(self.entries@) =~= damage_request_views(
                old(self).entries@,
            ).push(entry@));
        }
    }
}

/// A request to heal `target` by `amount` that has not yet been turned into an intent.
#[derive(Clone, Copy, Debug, PartialEq, Eq, Structural)]
pub struct PendingHealEntry {
    pub target: u64,
    pub amount: u32,
}

/// The pending heal requests of a tick, in the order they were made.
#[derive(Debug)]
pub struct PendingHeal {
    pub entries: Vec<PendingHealEntry>,
}

impl PendingHeal {
    pub fn new() -> (pending: Self)
        ensures
            pending.entries@ == Seq::<PendingHealEntry>::empty(),
    {
        PendingHeal { entries: Vec::new() }
    }

    /// Adds a request to heal `target` by `amount`.
    pub fn push(&mut self, target: u64, amount: u32)
        ensures
            final(self).entries@ == old(self).entries@.push(PendingHealEntry { target, amount }),
    {
        self.entries.push(PendingHealEntry { target, amount });
    }
}

/// Damage that will be applied to `target` at the end of the tick.
#[derive(Clone, Copy, Debug, PartialEq, Eq, Structural)]
pub struct DamageIntent {
    pub source: u64,
    pub target: u64,
    pub amount: u32,
    pub damage_type: DamageType,
}

/// Healing that will be applied to `target` at the end of the tick.
#[derive(Clone, Copy, Debug, PartialEq, Eq, Structural)]
pub struct HealIntent {
    pub source: u64,
    pub target: u64,
    pub amount: u32,
}

/// The damage intents of a tick.
#[derive(Debug)]
pub struct DamageIntentBuffer(pub Vec<DamageIntent>);

/// The heal intents of a tick.
#[derive(Debug)]
pub struct HealIntentBuffer(pub Vec<HealIntent>);

/// A special attack of `source` on `target`, made by a unit of `owner`.
#[derive(Clone, Copy, Debug, PartialEq, Eq, Structural)]
pub struct StatusActionIntent {
    pub kind: SpecialAttackKind,
    pub source: u64,
    pub target: u64,
    pub owner: u64,
    pub amount: u32,
}

/// The special attacks made during a tick.
#[derive(Debug)]
pub struct PendingSpecialAttack {
    pub intents: Vec<StatusActionIntent>,
}

/// The special attack that takes effect on `target`.
#[derive(Clone, Copy, Debug, PartialEq, Eq, Structural)]
pub struct ResolvedStatusIntent {
    pub kind: SpecialAttackKind,
    pub target: u64,
    pub amount: u32,
}

/// The special attacks that take effect this tick, one per target.
#[derive(Debug)]
pub struct ResolvedStatusIntents {
    pub entries: Vec<ResolvedStatusIntent>,
}

} // verus!
