use vstd::prelude::*;

use crate::buffers::{PendingDamage, PendingDamageView};
use crate::config::{can_damage, damage_allowed, CombatConfig};
use crate::kinds::{DamageType, DamageTypeNames};

verus! {

/// A place in the world: a room and a tile in it.
#[derive(Debug)]
pub struct Position {
    pub room: String,
    pub x: i64,
    pub y: i64,
}

/// A tower's armament: it shoots the nearest enemy within `range` for
/// `damage` of `damage_type`.
#[derive(Clone, Copy, Debug)]
pub struct Tower {
    pub range: u32,
    pub damage: u32,
    pub damage_type: DamageType,
}

/// A tower as it stands in the world.
#[derive(Debug)]
pub struct TowerUnit {
    pub entity: u64,
    pub position: Position,
    pub owner: Option<u64>,
    pub tower: Tower,
}

/// An entity that a tower may consider shooting.
#[derive(Debug)]
pub struct TargetUnit {
    pub entity: u64,
    pub position: Position,
    pub owner: Option<u64>,
    pub is_drone: bool,
    pub is_structure: bool,
}

/// The distance between two coordinates along one axis.
pub open spec fn axis_gap(a: i64, b: i64) -> u64 {
    if a >= b {
        (a - b) as u64
    } else {
        (b - a) as u64
    }
}

/// The number of moves between two positions (diagonal steps allowed), or
/// `None` when they lie in different rooms.
pub open spec fn distance(a: Position, b: Position) -> Option<u64> {
    if a.room@ == b.room@ {
        let dx = axis_gap(a.x, b.x);
        let dy = axis_gap(a.y, b.y);
        Some(if dx >= dy { dx } else { dy })
    } else {
        None
    }
}

fn gap(a: i64, b: i64) -> (g: u64)
    ensures
        g == axis_gap(a, b),
{
    if a >= b {
        ((a as i128) - (b as i128)) as u64
    } else {
        ((b as i128) - (a as i128)) as u64
    }
}

/// The number of moves between two positions, if they share a room.
pub fn range(a: &Position, b: &Position) -> (d: Option<u64>)
    ensures
        d == distance(*a, *b),
{
    if a.room == b.room {
        let dx = gap(a.x, b.x);
        let dy = gap(a.y, b.y);
        Some(if dx >= dy { dx } else { dy })
    } else {
        None
    }
}

/// Whether `target` is something the tower may shoot: another entity, a
/// drone or a structure, one its owner may damage, in the same room and
/// within range.
pub open spec fn is_candidate(tower: TowerUnit, target: TargetUnit, config: CombatConfig) -> bool {
    &&& target.entity != tower.entity
    &&& (target.is_drone || target.is_structure)
    &&& damage_allowed(tower.owner, target.owner, config)
    &&& distance(tower.position, target.position) matches Some(d)
    &&& d <= tower.tower.range
}

/// Whether target `a` comes before target `b`: nearer first, then by entity.
pub open spec fn precedes(tower: TowerUnit, a: TargetUnit, b: TargetUnit) -> bool {
    let da = distance(tower.position, a.position).unwrap();
    let db = distance(tower.position, b.position).unwrap();
    da < db || (da == db && a.entity < b.entity)
}

/// Whether `targets[i]` is what the tower shoots among the first `n`
/// targets: a candidate that no candidate precedes, and that precedes every
/// earlier candidate (of two alike, the first one listed is shot).
pub open spec fn is_choice_among(
    tower: TowerUnit,
    targets: Seq<TargetUnit>,
    config: CombatConfig,
    i: int,
    n: int,
) -> bool {
    &&& 0 <= i < n <= targets.len()
    &&& is_candidate(tower, targets[i], config)
    &&& forall|j: int|
        0 <= j < n && #[trigger] is_candidate(tower, targets[j], config) ==> {
            &&& !precedes(tower, targets[j], targets[i])
            &&& (j < i ==> precedes(tower, targets[i], targets[j]))
        }
}

/// Whether `targets[i]` is what the tower shoots.
pub open spec fn is_choice(tower: TowerUnit, targets: Seq<TargetUnit>, config: CombatConfig, i: int) -> bool {
    is_choice_among(tower, targets, config, i, targets.len() as int)
}

/// The request that a tower's shot makes, if it has anything to shoot.
pub open spec fn tower_shot(
    tower: TowerUnit,
    targets: Seq<TargetUnit>,
    config: CombatConfig,
    names: DamageTypeNames,
) -> Option<PendingDamageView> {
    if exists|i: int| is_choice(tower, targets, config, i) {
        let i = choose|i: int| is_choice(tower, targets, config, i);
        Some(
            PendingDamageView {
                target: targets[i].entity,
                amount: tower.tower.damage,
                damage_type: names.name_of(tower.tower.damage_type),
            },
        )
    } else {
        None
    }
}

/// The requests that the towers' shots make, in tower order.
pub open spec fn tower_volley(
    towers: Seq<TowerUnit>,
    targets: Seq<TargetUnit>,
    config: CombatConfig,
    names: DamageTypeNames,
) -> Seq<PendingDamageView>
    decreases towers.len(),
{
    if towers.len() == 0 {
        Seq::empty()
    } else {
        let earlier = tower_volley(towers.drop_last(), targets, config, names);
        match tower_shot(towers.last(), targets, config, names) {
            Some(shot) => earlier.push(shot),
            None => earlier,
        }
    }
}

/// A tower shoots at most one target: two choices are the same target.
pub proof fn lemma_choice_unique(
    tower: TowerUnit,
    targets: Seq<TargetUnit>,
    config: CombatConfig,
    i: int,
    k: int,
)
    requires
        is_choice(tower, targets, config, i),
        is_choice(tower, targets, config, k),
    ensures
        i == k,
{
    assert(is_candidate(tower, targets[i], config));
    assert(is_candidate(tower, targets[k], config));
}

/// The chosen target is a candidate within the tower's range, and no
/// candidate is nearer.
pub proof fn lemma_choice_is_nearest(
    tower: TowerUnit,
    targets: Seq<TargetUnit>,
    config: CombatConfig,
    i: int,
    j: int,
)
    requires
        is_choice(tower, targets, config, i),
        0 <= j < targets.len(),
        is_candidate(tower, targets[j], config),
    ensures
        distance(tower.position, targets[i].position).unwrap() <= tower.tower.range,
        distance(tower.position, targets[i].position).unwrap() <= distance(
            tower.position,
            targets[j].position,
        ).unwrap(),
        distance(tower.position, targets[i].position).unwrap() == distance(
            tower.position,
            targets[j].position,
        ).unwrap() ==> targets[i].entity <= targets[j].entity,
        j < i ==> distance(tower.position, targets[i].position).unwrap() < distance(
            tower.position,
            targets[j].position,
        ).unwrap() || targets[i].entity < targets[j].entity,
{
}

/// A tower only ever shoots a candidate: another drone or structure, in its
/// room and range, whose owner it may damage; it shoots with its own damage
/// and damage type.
pub proof fn lemma_shot_hits_candidate(
    tower: TowerUnit,
    targets: Seq<TargetUnit>,
    config: CombatConfig,
    names: DamageTypeNames,
)
    requires
        tower_shot(tower, targets, config, names) is Some,
    ensures
        exists|i: int|
            0 <= i < targets.len() && #[trigger] is_candidate(tower, targets[i], config) && targets[i].entity
                == tower_shot(tower, targets, config, names).unwrap().target,
        tower_shot(tower, targets, config, names).unwrap().amount == tower.tower.damage,
        tower_shot(tower, targets, config, names).unwrap().damage_type == names.name_of(
            tower.tower.damage_type,
        ),
{
    let i = choose|i: int| is_choice(tower, targets, config, i);
    assert(is_candidate(tower, targets[i], config));
}

/// Positions in different rooms have no distance; in one room the distance
/// is the larger of the two coordinate gaps.
pub proof fn lemma_distance_is_larger_gap(a: Position, b: Position)
    ensures
        a.room@ != b.room@ ==> distance(a, b) is None,
        a.room@ == b.room@ ==> (distance(a, b) matches Some(d) && {
            let dx = if a.x >= b.x { a.x - b.x } else { b.x - a.x };
            let dy = if a.y >= b.y { a.y - b.y } else { b.y - a.y };
            &&& d >= dx && d >= dy
            &&& (d == dx || d == dy)
        }),
{
}

/// A tower shoots only a unit other than itself, a drone or a structure, in
/// its room and range, and never one with its own owner (two unowned units
/// included) unless friendly fire is on, nor one of another player unless PvP
/// is on.
pub proof fn lemma_shot_respects_owners(
    tower: TowerUnit,
    targets: Seq<TargetUnit>,
    config: CombatConfig,
    names: DamageTypeNames,
)
    requires
        tower_shot(tower, targets, config, names) is Some,
    ensures
        exists|i: int|
            0 <= i < targets.len() && (#[trigger] targets[i]).entity == tower_shot(
                tower,
                targets,
                config,
                names,
            ).unwrap().target && {
                &&& targets[i].entity != tower.entity
                &&& targets[i].is_drone || targets[i].is_structure
                &&& targets[i].owner == tower.owner ==> config.friendly_fire
                &&& (tower.owner is Some && targets[i].owner is Some && targets[i].owner != tower.owner)
                    ==> config.pvp_enabled
                &&& (distance(tower.position, targets[i].position) matches Some(d) && d
                    <= tower.tower.range)
            },
{
    let i = choose|i: int| is_choice(tower, targets, config, i);
    assert(is_candidate(tower, targets[i], config));
    crate::config::lemma_same_owner_needs_friendly_fire(tower.owner, config);
}

proof fn lemma_choice_exists(tower: TowerUnit, targets: Seq<TargetUnit>, config: CombatConfig, n: int)
    requires
        0 <= n <= targets.len(),
        exists|j: int| 0 <= j < n && #[trigger] is_candidate(tower, targets[j], config),
    ensures
        exists|i: int| #[trigger] is_choice_among(tower, targets, config, i, n),
    decreases n,
{
    let last = n - 1;
    if exists|j: int| 0 <= j < n - 1 && #[trigger] is_candidate(tower, targets[j], config) {
        lemma_choice_exists(tower, targets, config, n - 1);
        let b = choose|i: int| #[trigger] is_choice_among(tower, targets, config, i, n - 1);
        if is_candidate(tower, targets[last], config) && precedes(tower, targets[last], targets[b]) {
            assert(is_choice_among(tower, targets, config, last, n));
        } else {
            assert(is_choice_among(tower, targets, config, b, n));
        }
    } else {
        assert(is_candidate(tower, targets[last], config));
        assert(is_choice_among(tower, targets, config, last, n));
    }
}

/// A tower with anything to shoot shoots: when some other drone or
/// structure that its owner may damage stands in its room and range, the
/// tower makes a shot, with its own damage and damage type.
pub proof fn lemma_tower_shoots_when_able(
    tower: TowerUnit,
    targets: Seq<TargetUnit>,
    config: CombatConfig,
    names: DamageTypeNames,
    j: int,
)
    requires
        0 <= j < targets.len(),
        targets[j].entity != tower.entity,
        targets[j].is_drone || targets[j].is_structure,
        damage_allowed(tower.owner, targets[j].owner, config),
        distance(tower.position, targets[j].position) matches Some(d) && d <= tower.tower.range,
    ensures
        tower_shot(tower, targets, config, names) is Some,
        tower_shot(tower, targets, config, names).unwrap().amount == tower.tower.damage,
        tower_shot(tower, targets, config, names).unwrap().damage_type == names.name_of(
            tower.tower.damage_type,
        ),
{
    assert(is_candidate(tower, targets[j], config));
    lemma_choice_exists(tower, targets, config, targets.len() as int);
    let c = choose|i: int| #[trigger] is_choice_among(tower, targets, config, i, targets.len() as int);
    assert(is_choice(tower, targets, config, c));
}

/// Picks the index of the target that `tower` shoots, if any.
fn choose_target(tower: &TowerUnit, targets: &Vec<TargetUnit>, config: &CombatConfig) -> (choice: Option<usize>)
    ensures
        match choice {
            Some(i) => is_choice(*tower, targets@, *config, i as int),
            None => forall|i: int| 0 <= i < targets.len() ==> !#[trigger] is_candidate(*tower, targets@[i], *config),
        },
{
    let mut best: Option<(usize, u64)> = None;
    let mut j: usize = 0;
    while j < targets.len()
        invariant
            0 <= j <= targets.len(),
            match best {
                Some((b, d)) => is_choice_among(*tower, targets@, *config, b as int, j as int)
                    && distance(tower.position, targets@[b as int].position) == Some(d),
                None => forall|k: int| 0 <= k < j ==> !#[trigger] is_candidate(*tower, targets@[k], *config),
            },
        decreases targets.len() - j,
    {
        let target = &targets[j];
        let eligible = target.entity != tower.entity && (target.is_drone || target.is_structure)
            && can_damage(tower.owner, target.owner, config);
        if eligible {
            match range(&tower.position, &target.position) {
                Some(d) => {
                    if d <= tower.tower.range as u64 {
                        let better = match best {
                            None => true,
                            Some((b, bd)) => d < bd || (d == bd && target.entity < targets[b].entity),
                        };
                        if better {
                            best = Some((j, d));
                        }
                    }
                },
                None => {},
            }
        }
        j = j + 1;
    }
    match best {
        Some((b, _)) => Some(b),
        None => None,
    }
}

/// Tower defence: every tower that has a target in range shoots the nearest
/// one it may damage (ties go to the lower entity, then to the target listed
/// first); the shots join the pending damage requests in tower order.
pub fn tower_auto_attack_system(
    pending: &mut PendingDamage,
    towers: &Vec<TowerUnit>,
    targets: &Vec<TargetUnit>,
    config: &CombatConfig,
    names: &DamageTypeNames,
)
    ensures
        final(pending)@ == old(pending)@ + tower_volley(towers@, targets@, *config, *names),
{
    let mut t: usize = 0;
    while t < towers.len()
        invariant
            0 <= t <= towers.len(),
            pending@ == old(pending)@ + tower_volley(towers@.take(t as int), targets@, *config, *names),
        decreases towers.len() - t,
    {
        let tower = &towers[t];
        proof {
            assert(towers@.take(t + 1).drop_last() =~= towers@.take(t as int));
            assert(towers@.take(t + 1).last() == *tower);
        }
        match choose_target(tower, targets, config) {
            Some(i) => {
                proof {
                    let c = choose|c: int| is_choice(*tower, targets@, *config, c);
                    lemma_choice_unique(*tower, targets@, *config, i as int, c);
                }
                pending.push(targets[i].entity, tower.tower.damage, names.name(tower.tower.damage_type).as_str());
                proof {
                    assert(pending@ =~= old(pending)@ + tower_volley(towers@.take(t + 1), targets@, *config, *names));
                }
            },
            None => {
                proof {
                    assert(!exists|c: int| is_choice(*tower, targets@, *config, c));
                }
            },
        }
        t = t + 1;
    }
    proof {
        assert(towers@.take(towers.len() as int) =~= towers@);
    }
}

} // verus!
