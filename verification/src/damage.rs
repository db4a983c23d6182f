use vstd::prelude::*;

use crate::buffers::{DamageIntent, DamageIntentBuffer, HealIntent, HealIntentBuffer};
use crate::config::{scale, scaled, BASIS_POINTS_ONE};
use crate::kinds::BodyPart;

verus! {

/// The hit points of a drone or structure, by entity, with the number of
/// TOUGH parts in its body (none for a structure).
#[derive(Clone, Copy, Debug, PartialEq, Eq, Structural)]
pub struct HitPoints {
    pub entity: u64,
    pub hits: u32,
    pub hits_max: u32,
    pub tough_parts: u32,
}

/// The number of TOUGH parts in `body`.
pub open spec fn tough_count(body: Seq<BodyPart>) -> nat
    decreases body.len(),
{
    if body.len() == 0 {
        0
    } else {
        tough_count(body.drop_last()) + if body.last() == BodyPart::Tough {
            1nat
        } else {
            0nat
        }
    }
}

/// The number of TOUGH parts in `body`, saturating at `u32::MAX`.
pub fn tough_parts_of(body: &Vec<BodyPart>) -> (count: u32)
    ensures
        count == capped(tough_count(body@)),
{
    let mut count: u32 = 0;
    let mut i: usize = 0;
    while i < body.len()
        invariant
            0 <= i <= body.len(),
            count == capped(tough_count(body@.take(i as int))),
        decreases body.len() - i,
    {
        proof {
            assert(body@.take(i + 1).drop_last() =~= body@.take(i as int));
        }
        if body[i] == BodyPart::Tough {
            count = count.saturating_add(1);
        }
        i = i + 1;
    }
    proof {
        assert(body@.take(body.len() as int) =~= body@);
    }
    count
}

/// The damage reduction that each TOUGH part gives, in basis points.
pub const TOUGH_REDUCTION_BP: u32 = 1_000;

/// The largest damage reduction that TOUGH parts can give, in basis points.
pub const MAX_REDUCTION_BP: u32 = 5_000;

/// The damage reduction of a body with `tough_parts` TOUGH parts, in basis
/// points: a tenth per part, at most a half.
pub open spec fn resistance_bp(tough_parts: u32) -> u32 {
    let r = tough_parts as int * TOUGH_REDUCTION_BP as int;
    if r >= MAX_REDUCTION_BP as int {
        MAX_REDUCTION_BP
    } else {
        r as u32
    }
}

/// What remains of `amount` damage against a body with `tough_parts` TOUGH
/// parts: the amount less the reduction, rounded down.
pub open spec fn resisted(amount: u32, tough_parts: u32) -> u32 {
    scaled(amount, (BASIS_POINTS_ONE - resistance_bp(tough_parts)) as u32)
}

/// The damage reduction of a body with `tough_parts` TOUGH parts.
pub fn resistance(tough_parts: u32) -> (reduction: u32)
    ensures
        reduction == resistance_bp(tough_parts),
{
    if tough_parts >= MAX_REDUCTION_BP / TOUGH_REDUCTION_BP {
        MAX_REDUCTION_BP
    } else {
        tough_parts * TOUGH_REDUCTION_BP
    }
}

/// Resistance: what remains of `amount` damage against a body with
/// `tough_parts` TOUGH parts.
pub fn resist(amount: u32, tough_parts: u32) -> (remaining: u32)
    ensures
        remaining == resisted(amount, tough_parts),
{
    let reduction = resistance(tough_parts);
    scale(amount, BASIS_POINTS_ONE - reduction)
}

/// The damage that `intents` aim at `target`, before resistance and uncapped.
pub open spec fn damage_total(intents: Seq<DamageIntent>, target: u64) -> nat
    decreases intents.len(),
{
    if intents.len() == 0 {
        0
    } else {
        let last = intents.last();
        damage_total(intents.drop_last(), target) + if last.target == target {
            last.amount as nat
        } else {
            0
        }
    }
}

/// The healing that `intents` give to `target`, uncapped.
pub open spec fn heal_total(intents: Seq<HealIntent>, target: u64) -> nat
    decreases intents.len(),
{
    if intents.len() == 0 {
        0
    } else {
        let last = intents.last();
        heal_total(intents.drop_last(), target) + if last.target == target {
            last.amount as nat
        } else {
            0
        }
    }
}

/// An amount capped at `u32::MAX`.
pub open spec fn capped(n: nat) -> u32 {
    if n > u32::MAX as nat {
        u32::MAX
    } else {
        n as u32
    }
}

/// Hit points after taking `damage` and then `healing`, both saturating, and
/// never above `hits_max`.
pub open spec fn hits_after(hits: u32, hits_max: u32, damage: u32, healing: u32) -> u32 {
    let worn: int = if hits >= damage { hits - damage } else { 0 };
    let mended: int = if worn + healing > u32::MAX { u32::MAX as int } else { worn + healing };
    if mended <= hits_max { mended as u32 } else { hits_max }
}

/// Whether some intent is aimed at `target`.
pub open spec fn is_struck(damage: Seq<DamageIntent>, heal: Seq<HealIntent>, target: u64) -> bool {
    (exists|i: int| 0 <= i < damage.len() && (#[trigger] damage[i]).target == target)
        || (exists|i: int| 0 <= i < heal.len() && (#[trigger] heal[i]).target == target)
}

/// Whether `bodies[i]` is the first entry for its entity: the one that intents act on.
pub open spec fn is_first_holder(bodies: Seq<HitPoints>, i: int) -> bool {
    &&& 0 <= i < bodies.len()
    &&& forall|j: int| 0 <= j < i ==> (#[trigger] bodies[j]).entity != bodies[i].entity
}

/// The damage that `damage` deals to `body`: its total, capped at
/// `u32::MAX`, reduced by the body's resistance.
pub open spec fn dealt_damage(body: HitPoints, damage: Seq<DamageIntent>) -> u32 {
    resisted(capped(damage_total(damage, body.entity)), body.tough_parts)
}

/// The hit points of `body` once the tick's intents are applied to it.
pub open spec fn settled(body: HitPoints, damage: Seq<DamageIntent>, heal: Seq<HealIntent>) -> HitPoints {
    HitPoints {
        entity: body.entity,
        hits: hits_after(
            body.hits,
            body.hits_max,
            dealt_damage(body, damage),
            capped(heal_total(heal, body.entity)),
        ),
        hits_max: body.hits_max,
        tough_parts: body.tough_parts,
    }
}

/// What `bodies[i]` becomes: settled if it is the first entry of a struck
/// entity, unchanged otherwise.
pub open spec fn applied(
    bodies: Seq<HitPoints>,
    damage: Seq<DamageIntent>,
    heal: Seq<HealIntent>,
    i: int,
) -> HitPoints {
    if is_first_holder(bodies, i) && is_struck(damage, heal, bodies[i].entity) {
        settled(bodies[i], damage, heal)
    } else {
        bodies[i]
    }
}

/// Whether the intents destroy the entity `target`: it is struck, and its
/// first entry is left with no hit points.
pub open spec fn is_destroyed(
    bodies: Seq<HitPoints>,
    damage: Seq<DamageIntent>,
    heal: Seq<HealIntent>,
    target: u64,
) -> bool {
    &&& is_struck(damage, heal, target)
    &&& exists|i: int|
        is_first_holder(bodies, i) && (#[trigger] bodies[i]).entity == target && settled(
            bodies[i],
            damage,
            heal,
        ).hits == 0
}

/// Whether `s` is strictly increasing.
pub open spec fn strictly_increasing(s: Seq<u64>) -> bool {
    forall|a: int, b: int| 0 <= a < b < s.len() ==> #[trigger] s[a] < #[trigger] s[b]
}

/// Inserts `x` into the strictly increasing `v`, unless it is there already.
fn insert_sorted(v: &mut Vec<u64>, x: u64)
    requires
        strictly_increasing(old(v)@),
    ensures
        strictly_increasing(final(v)@),
        forall|y: u64| #[trigger] final(v)@.contains(y) <==> (old(v)@.contains(y) || y == x),
{
    let mut p: usize = 0;
    while p < v.len() && v[p] < x
        invariant
            0 <= p <= v.len(),
            v@ == old(v)@,
            forall|q: int| 0 <= q < p ==> v@[q] < x,
        decreases v.len() - p,
    {
        p = p + 1;
    }
    if p < v.len() && v[p] == x {
        assert(v@[p as int] == x);
        return;
    }
    let ghost before = v@;
    v.insert(p, x);
    proof {
        assert forall|a: int, b: int| 0 <= a < b < v.len() implies #[trigger] v@[a] < #[trigger] v@[b] by {
            if b < p {
                assert(v@[a] == before[a] && v@[b] == before[b]);
            } else if b == p {
                assert(v@[a] == before[a]);
            } else if a > p {
                assert(v@[a] == before[a - 1] && v@[b] == before[b - 1]);
            } else if a == p {
                assert(v@[b] == before[b - 1]);
                assert(before[p as int] > x);
                if b - 1 > p {
                    assert(before[p as int] < before[b - 1]);
                }
            } else {
                assert(v@[a] == before[a] && v@[b] == before[b - 1]);
            }
        }
        assert forall|y: u64| #[trigger] v@.contains(y) <==> (before.contains(y) || y == x) by {
            if v@.contains(y) {
                let i = choose|i: int| 0 <= i < v.len() && v@[i] == y;
                if i < p {
                    assert(before[i] == y);
                } else if i > p {
                    assert(before[i - 1] == y);
                }
            }
            if before.contains(y) {
                let i = choose|i: int| 0 <= i < before.len() && before[i] == y;
                if i < p {
                    assert(v@[i] == y);
                } else {
                    assert(v@[i + 1] == y);
                }
            }
            if y == x {
                assert(v@[p as int] == x);
            }
        }
    }
}

/// Every entity that some intent is aimed at, in increasing order.
fn struck_targets(damage: &Vec<DamageIntent>, heal: &Vec<HealIntent>) -> (targets: Vec<u64>)
    ensures
        strictly_increasing(targets@),
        forall|t: u64| targets@.contains(t) <==> is_struck(damage@, heal@, t),
{
    let mut targets: Vec<u64> = Vec::new();
    let mut i: usize = 0;
    while i < damage.len()
        invariant
            0 <= i <= damage.len(),
            strictly_increasing(targets@),
            forall|t: u64|
                targets@.contains(t) <==> exists|k: int| 0 <= k < i && (#[trigger] damage@[k]).target == t,
        decreases damage.len() - i,
    {
        insert_sorted(&mut targets, damage[i].target);
        proof {
            assert forall|t: u64|
                targets@.contains(t) <==> exists|k: int|
                    0 <= k < i + 1 && (#[trigger] damage@[k]).target == t by {
                if t == damage@[i as int].target {
                    assert(damage@[i as int].target == t);
                }
            }
        }
        i = i + 1;
    }
    let mut j: usize = 0;
    while j < heal.len()
        invariant
            0 <= j <= heal.len(),
            strictly_increasing(targets@),
            forall|t: u64|
                targets@.contains(t) <==> (exists|k: int|
                    0 <= k < damage.len() && (#[trigger] damage@[k]).target == t) || exists|k: int|
                    0 <= k < j && (#[trigger] heal@[k]).target == t,
        decreases heal.len() - j,
    {
        insert_sorted(&mut targets, heal[j].target);
        proof {
            assert forall|t: u64|
                targets@.contains(t) <==> (exists|k: int|
                    0 <= k < damage.len() && (#[trigger] damage@[k]).target == t) || exists|k: int|
                    0 <= k < j + 1 && (#[trigger] heal@[k]).target == t by {
                if t == heal@[j as int].target {
                    assert(heal@[j as int].target == t);
                }
            }
        }
        j = j + 1;
    }
    targets
}

/// The damage that `intents` aim at `target`, saturating at `u32::MAX`.
fn total_damage(intents: &Vec<DamageIntent>, target: u64) -> (total: u32)
    ensures
        total == capped(damage_total(intents@, target)),
{
    let mut total: u32 = 0;
    let mut i: usize = 0;
    while i < intents.len()
        invariant
            0 <= i <= intents.len(),
            total == capped(damage_total(intents@.take(i as int), target)),
        decreases intents.len() - i,
    {
        let entry = intents[i];
        proof {
            assert(intents@.take(i + 1).drop_last() =~= intents@.take(i as int));
        }
        if entry.target == target {
            total = total.saturating_add(entry.amount);
        }
        i = i + 1;
    }
    proof {
        assert(intents@.take(intents.len() as int) =~= intents@);
    }
    total
}

/// The healing that `intents` give to `target`, saturating at `u32::MAX`.
fn total_heal(intents: &Vec<HealIntent>, target: u64) -> (total: u32)
    ensures
        total == capped(heal_total(intents@, target)),
{
    let mut total: u32 = 0;
    let mut i: usize = 0;
    while i < intents.len()
        invariant
            0 <= i <= intents.len(),
            total == capped(heal_total(intents@.take(i as int), target)),
        decreases intents.len() - i,
    {
        let entry = intents[i];
        proof {
            assert(intents@.take(i + 1).drop_last() =~= intents@.take(i as int));
        }
        if entry.target == target {
            total = total.saturating_add(entry.amount);
        }
        i = i + 1;
    }
    proof {
        assert(intents@.take(intents.len() as int) =~= intents@);
    }
    total
}

/// Hit points after taking `damage` and then `healing`.
pub fn apply_hits(hits: u32, hits_max: u32, damage: u32, healing: u32) -> (result: u32)
    ensures
        result == hits_after(hits, hits_max, damage, healing),
{
    let mended = hits.saturating_sub(damage).saturating_add(healing);
    if mended <= hits_max {
        mended
    } else {
        hits_max
    }
}

/// The index of the first entry for `entity`, if any.
fn find_holder(bodies: &Vec<HitPoints>, entity: u64) -> (found: Option<usize>)
    ensures
        match found {
            Some(i) => is_first_holder(bodies@, i as int) && bodies@[i as int].entity == entity,
            None => forall|j: int| 0 <= j < bodies.len() ==> (#[trigger] bodies@[j]).entity != entity,
        },
{
    let mut j: usize = 0;
    while j < bodies.len()
        invariant
            0 <= j <= bodies.len(),
            forall|k: int| 0 <= k < j ==> (#[trigger] bodies@[k]).entity != entity,
        decreases bodies.len() - j,
    {
        if bodies[j].entity == entity {
            return Some(j);
        }
        j = j + 1;
    }
    None
}

/// Applying the tick's intents never leaves a body above its maximum.
pub proof fn lemma_settled_within_max(body: HitPoints, damage: Seq<DamageIntent>, heal: Seq<HealIntent>)
    ensures
        settled(body, damage, heal).hits <= body.hits_max,
        settled(body, damage, heal).entity == body.entity,
        settled(body, damage, heal).hits_max == body.hits_max,
{
}

/// Resistance never adds damage; without TOUGH parts it takes nothing away,
/// and with any TOUGH part it takes something away from any damage.
pub proof fn lemma_resistance_bounds(amount: u32, tough_parts: u32)
    ensures
        resisted(amount, tough_parts) <= amount,
        tough_parts == 0 ==> resisted(amount, tough_parts) == amount,
        tough_parts > 0 && amount > 0 ==> resisted(amount, tough_parts) < amount,
        resisted(amount, tough_parts) >= amount / 2,
{
    let m = (BASIS_POINTS_ONE - resistance_bp(tough_parts)) as u32;
    assert(5_000 <= m <= 10_000);
    assert((amount as int) * (m as int) <= (amount as int) * 10_000) by (nonlinear_arith)
        requires
            m <= 10_000,
    ;
    assert((amount as int) * (m as int) >= (amount as int) * 5_000) by (nonlinear_arith)
        requires
            m >= 5_000,
    ;
    if tough_parts > 0 && amount > 0 {
        assert(m < 10_000);
        assert((amount as int) * (m as int) < (amount as int) * 10_000) by (nonlinear_arith)
            requires
                m < 10_000,
                amount > 0,
        ;
    }
}

/// More TOUGH parts never let more damage through.
pub proof fn lemma_more_tough_less_damage(amount: u32, fewer: u32, more: u32)
    requires
        fewer <= more,
    ensures
        resisted(amount, more) <= resisted(amount, fewer),
{
    crate::config::lemma_scale_monotonic(
        amount,
        amount,
        (BASIS_POINTS_ONE - resistance_bp(more)) as u32,
        (BASIS_POINTS_ONE - resistance_bp(fewer)) as u32,
    );
}

/// The damage that intents deal through TOUGH parts is never more than they
/// deal to a body without them, and strictly less whenever they deal any.
pub proof fn lemma_tough_reduces_damage(body: HitPoints, damage: Seq<DamageIntent>)
    ensures
        dealt_damage(body, damage) <= dealt_damage(HitPoints { tough_parts: 0, ..body }, damage),
        body.tough_parts > 0 && damage_total(damage, body.entity) > 0 ==> dealt_damage(body, damage)
            < dealt_damage(HitPoints { tough_parts: 0, ..body }, damage),
{
    lemma_resistance_bounds(capped(damage_total(damage, body.entity)), body.tough_parts);
    lemma_resistance_bounds(capped(damage_total(damage, body.entity)), 0);
}

/// A body with TOUGH parts keeps at least the hit points that the same body
/// without them keeps after the same intents.
pub proof fn lemma_tough_keeps_more_hits(body: HitPoints, damage: Seq<DamageIntent>, heal: Seq<HealIntent>)
    ensures
        settled(body, damage, heal).hits >= settled(
            HitPoints { tough_parts: 0, ..body },
            damage,
            heal,
        ).hits,
{
    lemma_tough_reduces_damage(body, damage);
}

/// Healing alone never lowers hit points that are within the maximum.
pub proof fn lemma_healing_never_hurts(body: HitPoints, damage: Seq<DamageIntent>, heal: Seq<HealIntent>)
    requires
        body.hits <= body.hits_max,
        damage_total(damage, body.entity) == 0,
    ensures
        settled(body, damage, heal).hits >= body.hits,
{
    lemma_resistance_bounds(0, body.tough_parts);
}

/// Without any intents a body is unchanged (when within its maximum).
pub proof fn lemma_no_intents_no_change(body: HitPoints)
    requires
        body.hits <= body.hits_max,
    ensures
        settled(body, Seq::empty(), Seq::empty()) == body,
{
    lemma_resistance_bounds(0, body.tough_parts);
}

/// The damage aimed by two batches of intents is the sum of what each aims,
/// so the order in which the batches arrive does not matter.
pub proof fn lemma_damage_total_additive(a: Seq<DamageIntent>, b: Seq<DamageIntent>, target: u64)
    ensures
        damage_total(a + b, target) == damage_total(a, target) + damage_total(b, target),
        damage_total(a + b, target) == damage_total(b + a, target),
    decreases b.len(),
{
    if b.len() == 0 {
        assert(a + b =~= a);
    } else {
        lemma_damage_total_additive(a, b.drop_last(), target);
        assert((a + b).drop_last() =~= a + b.drop_last());
    }
    lemma_damage_total_split_sym(a, b, target);
}

proof fn lemma_damage_total_split_sym(a: Seq<DamageIntent>, b: Seq<DamageIntent>, target: u64)
    ensures
        damage_total(b + a, target) == damage_total(b, target) + damage_total(a, target),
    decreases a.len(),
{
    if a.len() == 0 {
        assert(b + a =~= b);
    } else {
        lemma_damage_total_split_sym(a.drop_last(), b, target);
        assert((b + a).drop_last() =~= b + a.drop_last());
    }
}

/// The healing given by two batches of intents is the sum of what each gives.
pub proof fn lemma_heal_total_additive(a: Seq<HealIntent>, b: Seq<HealIntent>, target: u64)
    ensures
        heal_total(a + b, target) == heal_total(a, target) + heal_total(b, target),
    decreases b.len(),
{
    if b.len() == 0 {
        assert(a + b =~= a);
    } else {
        lemma_heal_total_additive(a, b.drop_last(), target);
        assert((a + b).drop_last() =~= a + b.drop_last());
    }
}

/// One intent aims its amount at its own target and nothing at any other;
/// amounts beyond `u32::MAX` count as `u32::MAX`.
pub proof fn lemma_one_intent_totals(d: DamageIntent, h: HealIntent, target: u64, n: nat)
    ensures
        damage_total(seq![d], target) == if d.target == target { d.amount as nat } else { 0 },
        heal_total(seq![h], target) == if h.target == target { h.amount as nat } else { 0 },
        capped(n) as int == if n > u32::MAX as nat { u32::MAX as int } else { n as int },
{
    assert(seq![d].drop_last() =~= Seq::<DamageIntent>::empty());
    assert(seq![h].drop_last() =~= Seq::<HealIntent>::empty());
    assert(damage_total(Seq::<DamageIntent>::empty(), target) == 0);
    assert(heal_total(Seq::<HealIntent>::empty(), target) == 0);
}

/// The tick's healing is added after its damage is taken: a body whose
/// hits the damage exhausts ends with the healing (never above its maximum),
/// any other with its hits less the damage plus the healing (never above its
/// maximum or `u32::MAX`).
pub proof fn lemma_damage_then_healing(body: HitPoints, damage: Seq<DamageIntent>, heal: Seq<HealIntent>)
    ensures
        dealt_damage(body, damage) >= body.hits ==> settled(body, damage, heal).hits == if capped(
            heal_total(heal, body.entity),
        ) <= body.hits_max {
            capped(heal_total(heal, body.entity))
        } else {
            body.hits_max
        },
        dealt_damage(body, damage) < body.hits ==> {
            let left = body.hits - dealt_damage(body, damage) + capped(heal_total(heal, body.entity));
            let bounded = if left > u32::MAX { u32::MAX as int } else { left };
            settled(body, damage, heal).hits == if bounded <= body.hits_max {
                bounded
            } else {
                body.hits_max as int
            }
        },
{
}

/// A body is left with no hit points exactly when its maximum is zero, or
/// the damage exhausts its hits and no healing reaches it this tick.
pub proof fn lemma_no_hits_left(body: HitPoints, damage: Seq<DamageIntent>, heal: Seq<HealIntent>)
    ensures
        settled(body, damage, heal).hits == 0 <==> (body.hits_max == 0 || (dealt_damage(body, damage)
            >= body.hits && heal_total(heal, body.entity) == 0)),
{
}

/// An entity that receives any healing this tick is destroyed only if its
/// maximum is zero.
pub proof fn lemma_healed_entities_survive(
    bodies: Seq<HitPoints>,
    damage: Seq<DamageIntent>,
    heal: Seq<HealIntent>,
    target: u64,
)
    requires
        heal_total(heal, target) > 0,
        is_destroyed(bodies, damage, heal, target),
    ensures
        exists|i: int| is_first_holder(bodies, i) && (#[trigger] bodies[i]).entity == target && bodies[i].hits_max == 0,
{
    let w = choose|w: int|
        is_first_holder(bodies, w) && (#[trigger] bodies[w]).entity == target && settled(bodies[w], damage, heal).hits
            == 0;
    lemma_no_hits_left(bodies[w], damage, heal);
}

/// The damage dealt is the total aimed at the body, capped at `u32::MAX`,
/// unchanged without TOUGH parts, and otherwise multiplied by what the TOUGH
/// parts let through (a tenth less per part, at most a half less), rounded
/// down.
pub proof fn lemma_dealt_damage(body: HitPoints, damage: Seq<DamageIntent>)
    ensures
        body.tough_parts == 0 ==> dealt_damage(body, damage) == capped(damage_total(damage, body.entity)),
        ({
            let raw = capped(damage_total(damage, body.entity)) as int;
            let through = 10_000 - if body.tough_parts >= 5 { 5_000 } else { 1_000 * body.tough_parts };
            &&& (dealt_damage(body, damage) as int) * 10_000 <= raw * through
            &&& raw * through < (dealt_damage(body, damage) as int) * 10_000 + 10_000
        }),
{
    let raw = capped(damage_total(damage, body.entity));
    let m = (BASIS_POINTS_ONE - resistance_bp(body.tough_parts)) as u32;
    assert(m as int == 10_000 - if body.tough_parts >= 5 { 5_000 } else { 1_000 * body.tough_parts });
    assert((raw as int) * (m as int) <= (u32::MAX as int) * 10_000) by (nonlinear_arith)
        requires
            m <= 10_000,
    ;
    crate::config::lemma_scale_exact(raw, m);
    lemma_resistance_bounds(raw, body.tough_parts);
}

/// Hit points never rise with more damage, nor fall with more healing.
pub proof fn lemma_hits_after_monotonic(hits: u32, hits_max: u32, d1: u32, d2: u32, h1: u32, h2: u32)
    requires
        d1 <= d2,
        h2 <= h1,
    ensures
        hits_after(hits, hits_max, d2, h2) <= hits_after(hits, hits_max, d1, h1),
{
}

/// With healing fixed, more damage aimed at a body never leaves it more hit
/// points; with damage fixed, more healing never leaves it fewer. TOUGH
/// parts reduce the damage totals alike on both sides.
pub proof fn lemma_settled_monotonic(
    body: HitPoints,
    d1: Seq<DamageIntent>,
    h1: Seq<HealIntent>,
    d2: Seq<DamageIntent>,
    h2: Seq<HealIntent>,
)
    requires
        damage_total(d1, body.entity) <= damage_total(d2, body.entity),
        heal_total(h2, body.entity) <= heal_total(h1, body.entity),
    ensures
        settled(body, d2, h2).hits <= settled(body, d1, h1).hits,
{
    let m = (BASIS_POINTS_ONE - resistance_bp(body.tough_parts)) as u32;
    crate::config::lemma_scale_monotonic(
        capped(damage_total(d1, body.entity)),
        capped(damage_total(d2, body.entity)),
        m,
        m,
    );
    lemma_hits_after_monotonic(
        body.hits,
        body.hits_max,
        dealt_damage(body, d1),
        dealt_damage(body, d2),
        capped(heal_total(h1, body.entity)),
        capped(heal_total(h2, body.entity)),
    );
}

/// Only the per-target totals decide damage application: two sets of
/// intents that strike the same targets with the same total damage and
/// healing each leave every body, and the destroyed entities, the same,
/// however the amounts are split across intents.
pub proof fn lemma_only_totals_matter(
    bodies: Seq<HitPoints>,
    d1: Seq<DamageIntent>,
    h1: Seq<HealIntent>,
    d2: Seq<DamageIntent>,
    h2: Seq<HealIntent>,
)
    requires
        forall|t: u64| #[trigger] is_struck(d1, h1, t) == is_struck(d2, h2, t),
        forall|t: u64| #[trigger] damage_total(d1, t) == damage_total(d2, t),
        forall|t: u64| #[trigger] heal_total(h1, t) == heal_total(h2, t),
    ensures
        forall|i: int|
            0 <= i < bodies.len() ==> #[trigger] applied(bodies, d1, h1, i) == applied(bodies, d2, h2, i),
        forall|t: u64| #[trigger] is_destroyed(bodies, d1, h1, t) == is_destroyed(bodies, d2, h2, t),
{
    assert forall|i: int| 0 <= i < bodies.len() implies #[trigger] applied(bodies, d1, h1, i) == applied(
        bodies,
        d2,
        h2,
        i,
    ) by {
        assert(is_struck(d1, h1, bodies[i].entity) == is_struck(d2, h2, bodies[i].entity));
        assert(damage_total(d1, bodies[i].entity) == damage_total(d2, bodies[i].entity));
        assert(heal_total(h1, bodies[i].entity) == heal_total(h2, bodies[i].entity));
    }
    assert forall|t: u64| #[trigger] is_destroyed(bodies, d1, h1, t) == is_destroyed(bodies, d2, h2, t) by {
        assert(is_struck(d1, h1, t) == is_struck(d2, h2, t));
        assert(damage_total(d1, t) == damage_total(d2, t));
        assert(heal_total(h1, t) == heal_total(h2, t));
        if is_destroyed(bodies, d1, h1, t) {
            let w = choose|w: int|
                is_first_holder(bodies, w) && (#[trigger] bodies[w]).entity == t && settled(bodies[w], d1, h1).hits
                    == 0;
            assert(settled(bodies[w], d2, h2).hits == 0);
        }
        if is_destroyed(bodies, d2, h2, t) {
            let w = choose|w: int|
                is_first_holder(bodies, w) && (#[trigger] bodies[w]).entity == t && settled(bodies[w], d2, h2).hits
                    == 0;
            assert(settled(bodies[w], d1, h1).hits == 0);
        }
    }
}

/// The order in which intents arrive does not matter: any permutation of
/// the damage intents and of the heal intents leaves every body, and the
/// destroyed entities, the same.
pub proof fn lemma_intent_order_irrelevant(
    bodies: Seq<HitPoints>,
    d1: Seq<DamageIntent>,
    h1: Seq<HealIntent>,
    d2: Seq<DamageIntent>,
    h2: Seq<HealIntent>,
)
    requires
        d1.to_multiset() == d2.to_multiset(),
        h1.to_multiset() == h2.to_multiset(),
    ensures
        forall|i: int|
            0 <= i < bodies.len() ==> #[trigger] applied(bodies, d1, h1, i) == applied(bodies, d2, h2, i),
        forall|t: u64| #[trigger] is_destroyed(bodies, d1, h1, t) == is_destroyed(bodies, d2, h2, t),
{
    assert forall|t: u64| #[trigger] damage_total(d1, t) == damage_total(d2, t) by {
        lemma_damage_total_permutation(d1, d2, t);
    }
    assert forall|t: u64| #[trigger] heal_total(h1, t) == heal_total(h2, t) by {
        lemma_heal_total_permutation(h1, h2, t);
    }
    assert forall|t: u64| #[trigger] is_struck(d1, h1, t) == is_struck(d2, h2, t) by {
        d1.to_multiset_ensures();
        d2.to_multiset_ensures();
        h1.to_multiset_ensures();
        h2.to_multiset_ensures();
        if exists|i: int| 0 <= i < d1.len() && (#[trigger] d1[i]).target == t {
            let i = choose|i: int| 0 <= i < d1.len() && (#[trigger] d1[i]).target == t;
            assert(d1.contains(d1[i]));
            assert(d1.to_multiset().count(d1[i]) > 0);
            assert(d2.to_multiset().count(d1[i]) > 0);
            assert(d2.contains(d1[i]));
            let j = choose|j: int| 0 <= j < d2.len() && d2[j] == d1[i];
            assert(d2[j].target == t);
        }
        if exists|i: int| 0 <= i < d2.len() && (#[trigger] d2[i]).target == t {
            let i = choose|i: int| 0 <= i < d2.len() && (#[trigger] d2[i]).target == t;
            assert(d2.contains(d2[i]));
            assert(d2.to_multiset().count(d2[i]) > 0);
            assert(d1.to_multiset().count(d2[i]) > 0);
            assert(d1.contains(d2[i]));
            let j = choose|j: int| 0 <= j < d1.len() && d1[j] == d2[i];
            assert(d1[j].target == t);
        }
        if exists|i: int| 0 <= i < h1.len() && (#[trigger] h1[i]).target == t {
            let i = choose|i: int| 0 <= i < h1.len() && (#[trigger] h1[i]).target == t;
            assert(h1.contains(h1[i]));
            assert(h1.to_multiset().count(h1[i]) > 0);
            assert(h2.to_multiset().count(h1[i]) > 0);
            assert(h2.contains(h1[i]));
            let j = choose|j: int| 0 <= j < h2.len() && h2[j] == h1[i];
            assert(h2[j].target == t);
        }
        if exists|i: int| 0 <= i < h2.len() && (#[trigger] h2[i]).target == t {
            let i = choose|i: int| 0 <= i < h2.len() && (#[trigger] h2[i]).target == t;
            assert(h2.contains(h2[i]));
            assert(h2.to_multiset().count(h2[i]) > 0);
            assert(h1.to_multiset().count(h2[i]) > 0);
            assert(h1.contains(h2[i]));
            let j = choose|j: int| 0 <= j < h1.len() && h1[j] == h2[i];
            assert(h1[j].target == t);
        }
    }
    lemma_only_totals_matter(bodies, d1, h1, d2, h2);
}

proof fn lemma_damage_total_remove(s: Seq<DamageIntent>, i: int, target: u64)
    requires
        0 <= i < s.len(),
    ensures
        damage_total(s, target) == damage_total(s.remove(i), target) + if s[i].target == target {
            s[i].amount as nat
        } else {
            0
        },
{
    let front = s.take(i);
    let one = seq![s[i]];
    let back = s.skip(i + 1);
    assert(s =~= front + one + back);
    assert(s.remove(i) =~= front + back);
    lemma_damage_total_additive(front + one, back, target);
    lemma_damage_total_additive(front, one, target);
    lemma_damage_total_additive(front, back, target);
    assert(one.drop_last() =~= Seq::<DamageIntent>::empty());
    assert(damage_total(Seq::<DamageIntent>::empty(), target) == 0);
    assert(damage_total(one, target) == damage_total(one.drop_last(), target) + if s[i].target == target {
        s[i].amount as nat
    } else {
        0
    });
}

proof fn lemma_damage_total_permutation(s1: Seq<DamageIntent>, s2: Seq<DamageIntent>, target: u64)
    requires
        s1.to_multiset() == s2.to_multiset(),
    ensures
        damage_total(s1, target) == damage_total(s2, target),
    decreases s1.len(),
{
    s1.to_multiset_ensures();
    s2.to_multiset_ensures();
    if s1.len() == 0 {
        assert(s2.len() == 0);
        assert(s2 =~= s1);
    } else {
        let n = s1.len() - 1;
        let x = s1[n];
        assert(s1.contains(x));
        assert(s1.to_multiset().count(x) > 0);
        assert(s2.to_multiset().count(x) > 0);
        assert(s2.contains(x));
        let j = choose|j: int| 0 <= j < s2.len() && s2[j] == x;
        assert(s1.remove(n) =~= s1.drop_last());
        assert(s1.remove(n).to_multiset() == s2.remove(j).to_multiset());
        lemma_damage_total_permutation(s1.drop_last(), s2.remove(j), target);
        lemma_damage_total_remove(s2, j, target);
    }
}

proof fn lemma_heal_total_remove(s: Seq<HealIntent>, i: int, target: u64)
    requires
        0 <= i < s.len(),
    ensures
        heal_total(s, target) == heal_total(s.remove(i), target) + if s[i].target == target {
            s[i].amount as nat
        } else {
            0
        },
{
    let front = s.take(i);
    let one = seq![s[i]];
    let back = s.skip(i + 1);
    assert(s =~= front + one + back);
    assert(s.remove(i) =~= front + back);
    lemma_heal_total_additive(front + one, back, target);
    lemma_heal_total_additive(front, one, target);
    lemma_heal_total_additive(front, back, target);
    assert(one.drop_last() =~= Seq::<HealIntent>::empty());
    assert(heal_total(Seq::<HealIntent>::empty(), target) == 0);
    assert(heal_total(one, target) == heal_total(one.drop_last(), target) + if s[i].target == target {
        s[i].amount as nat
    } else {
        0
    });
}

proof fn lemma_heal_total_permutation(s1: Seq<HealIntent>, s2: Seq<HealIntent>, target: u64)
    requires
        s1.to_multiset() == s2.to_multiset(),
    ensures
        heal_total(s1, target) == heal_total(s2, target),
    decreases s1.len(),
{
    s1.to_multiset_ensures();
    s2.to_multiset_ensures();
    if s1.len() == 0 {
        assert(s2.len() == 0);
        assert(s2 =~= s1);
    } else {
        let n = s1.len() - 1;
        let x = s1[n];
        assert(s1.contains(x));
        assert(s1.to_multiset().count(x) > 0);
        assert(s2.to_multiset().count(x) > 0);
        assert(s2.contains(x));
        let j = choose|j: int| 0 <= j < s2.len() && s2[j] == x;
        assert(s1.remove(n) =~= s1.drop_last());
        assert(s1.remove(n).to_multiset() == s2.remove(j).to_multiset());
        lemma_heal_total_permutation(s1.drop_last(), s2.remove(j), target);
        lemma_heal_total_remove(s2, j, target);
    }
}

proof fn lemma_push_contains(s: Seq<u64>, x: u64, y: u64)
    ensures
        s.push(x).contains(y) == (s.contains(y) || y == x),
{
    if s.push(x).contains(y) {
        let r = choose|r: int| 0 <= r < s.len() + 1 && s.push(x)[r] == y;
        if r < s.len() {
            assert(s[r] == y);
        }
    }
    if s.contains(y) {
        let r = choose|r: int| 0 <= r < s.len() && s[r] == y;
        assert(s.push(x)[r] == y);
    }
    if y == x {
        assert(s.push(x)[s.len() as int] == y);
    }
}

/// What the bodies look like once the struck targets among `done` are settled.
pub open spec fn settled_so_far(
    bodies: Seq<HitPoints>,
    damage: Seq<DamageIntent>,
    heal: Seq<HealIntent>,
    done: Seq<u64>,
    i: int,
) -> HitPoints {
    if is_first_holder(bodies, i) && done.contains(bodies[i].entity) {
        settled(bodies[i], damage, heal)
    } else {
        bodies[i]
    }
}

/// Damage application: totals the tick's damage and healing per target
/// (both saturating at `u32::MAX`), reduces the damage total by the target's
/// TOUGH parts, applies both to the first drone or structure entry of each
/// target, damage before healing and never above its maximum, consumes the
/// intents, and returns the entities left with no hit points, in increasing
/// order.
pub fn damage_application_system(
    damage: &mut DamageIntentBuffer,
    heal: &mut HealIntentBuffer,
    bodies: &mut Vec<HitPoints>,
) -> (destroyed: Vec<u64>)
    ensures
        final(damage).0@ == Seq::<DamageIntent>::empty(),
        final(heal).0@ == Seq::<HealIntent>::empty(),
        final(bodies)@.len() == old(bodies)@.len(),
        forall|i: int|
            0 <= i < old(bodies)@.len() ==> #[trigger] final(bodies)@[i] == applied(
                old(bodies)@,
                old(damage).0@,
                old(heal).0@,
                i,
            ),
        strictly_increasing(destroyed@),
        forall|t: u64|
            #[trigger] destroyed@.contains(t) <==> is_destroyed(
                old(bodies)@,
                old(damage).0@,
                old(heal).0@,
                t,
            ),
{
    let targets = struck_targets(&damage.0, &heal.0);
    let ghost b0 = bodies@;
    let ghost d = damage.0@;
    let ghost h = heal.0@;
    let mut destroyed: Vec<u64> = Vec::new();
    let mut k: usize = 0;
    while k < targets.len()
        invariant
            0 <= k <= targets.len(),
            strictly_increasing(targets@),
            forall|t: u64| #[trigger] targets@.contains(t) <==> is_struck(d, h, t),
            damage.0@ == d,
            heal.0@ == h,
            bodies@.len() == b0.len(),
            forall|i: int|
                0 <= i < b0.len() ==> #[trigger] bodies@[i] == settled_so_far(
                    b0,
                    d,
                    h,
                    targets@.take(k as int),
                    i,
                ),
            strictly_increasing(destroyed@),
            forall|q: int|
                0 <= q < destroyed.len() ==> targets@.take(k as int).contains(#[trigger] destroyed@[q]),
            forall|t: u64|
                #[trigger] destroyed@.contains(t) <==> (targets@.take(k as int).contains(t)
                    && is_destroyed(b0, d, h, t)),
        decreases targets.len() - k,
    {
        let t = targets[k];
        let ghost done = targets@.take(k as int);
        let ghost next = targets@.take(k + 1);
        proof {
            assert(next =~= done.push(t));
            assert(!done.contains(t)) by {
                if done.contains(t) {
                    let q = choose|q: int| 0 <= q < done.len() && done[q] == t;
                    assert(targets@[q] < targets@[k as int]);
                }
            }
            assert forall|i: int| 0 <= i < b0.len() implies (#[trigger] bodies@[i]).entity == b0[i].entity by {
                assert(bodies@[i] == settled_so_far(b0, d, h, done, i));
            }
            assert(targets@.contains(t));
        }
        let mended = total_heal(&heal.0, t);
        let ghost before = bodies@;
        let ghost before_destroyed = destroyed@;
        match find_holder(bodies, t) {
            Some(i) => {
                let body = bodies[i];
                let dealt = resist(total_damage(&damage.0, t), body.tough_parts);
                let hits = apply_hits(body.hits, body.hits_max, dealt, mended);
                proof {
                    assert(before[i as int] == settled_so_far(b0, d, h, done, i as int));
                    assert(is_first_holder(b0, i as int)) by {
                        assert forall|j: int| 0 <= j < i implies (#[trigger] b0[j]).entity != b0[i as int].entity by {
                            assert(before[j].entity == b0[j].entity);
                        }
                    }
                    assert(before[i as int] == b0[i as int]);
                }
                bodies.set(
                    i,
                    HitPoints { entity: body.entity, hits, hits_max: body.hits_max, tough_parts: body.tough_parts },
                );
                if hits == 0 {
                    destroyed.push(t);
                }
                proof {
                    assert forall|j: int| 0 <= j < b0.len() implies #[trigger] bodies@[j] == settled_so_far(
                        b0,
                        d,
                        h,
                        next,
                        j,
                    ) by {
                        assert(before[j] == settled_so_far(b0, d, h, done, j));
                        lemma_push_contains(done, t, b0[j].entity);
                        if j == i {
                            assert(b0[j].entity == t);
                        }
                        if j != i {
                            if is_first_holder(b0, j) && b0[j].entity == t {
                                if j < i {
                                    assert(before[j].entity == b0[j].entity);
                                } else {
                                    assert(b0[i as int].entity == b0[j].entity);
                                }
                            }
                        }
                    }
                    assert(is_struck(d, h, t));
                    if hits == 0 {
                        assert(b0[i as int].entity == t);
                        assert(is_destroyed(b0, d, h, t));
                    } else {
                        assert(!is_destroyed(b0, d, h, t)) by {
                            if is_destroyed(b0, d, h, t) {
                                let w = choose|w: int|
                                    is_first_holder(b0, w) && (#[trigger] b0[w]).entity == t && settled(
                                        b0[w],
                                        d,
                                        h,
                                    ).hits == 0;
                                if w < i {
                                    assert(before[w].entity == b0[w].entity);
                                } else if w > i {
                                    assert(b0[i as int].entity == b0[w].entity);
                                }
                            }
                        }
                    }
                }
            },
            None => {
                proof {
                    assert forall|j: int| 0 <= j < b0.len() implies #[trigger] bodies@[j] == settled_so_far(
                        b0,
                        d,
                        h,
                        next,
                        j,
                    ) by {
                        assert(before[j] == settled_so_far(b0, d, h, done, j));
                        assert(before[j].entity == b0[j].entity);
                        assert(b0[j].entity != t);
                        lemma_push_contains(done, t, b0[j].entity);
                    }
                    assert(!is_destroyed(b0, d, h, t)) by {
                        if is_destroyed(b0, d, h, t) {
                            let w = choose|w: int|
                                is_first_holder(b0, w) && (#[trigger] b0[w]).entity == t && settled(
                                    b0[w],
                                    d,
                                    h,
                                ).hits == 0;
                            assert(before[w].entity == b0[w].entity);
                        }
                    }
                }
            },
        }
        proof {
            assert forall|q: int| 0 <= q < destroyed.len() implies next.contains(#[trigger] destroyed@[q]) by {
                if q < before_destroyed.len() {
                    assert(destroyed@[q] == before_destroyed[q]);
                    assert(done.contains(before_destroyed[q]));
                    let r = choose|r: int| 0 <= r < done.len() && done[r] == before_destroyed[q];
                    assert(next[r] == before_destroyed[q]);
                } else {
                    assert(next[k as int] == t);
                }
            }
            assert forall|a: int, b: int| 0 <= a < b < destroyed.len() implies #[trigger] destroyed@[a]
                < #[trigger] destroyed@[b] by {
                if b == before_destroyed.len() {
                    assert(done.contains(before_destroyed[a]));
                    let r = choose|r: int| 0 <= r < done.len() && done[r] == before_destroyed[a];
                    assert(targets@[r] < targets@[k as int]);
                } else {
                    assert(destroyed@[a] == before_destroyed[a]);
                    assert(destroyed@[b] == before_destroyed[b]);
                }
            }
            assert forall|x: u64| #[trigger] destroyed@.contains(x) <==> (next.contains(x) && is_destroyed(
                b0,
                d,
                h,
                x,
            )) by {
                if destroyed@.contains(x) {
                    let q = choose|q: int| 0 <= q < destroyed.len() && destroyed@[q] == x;
                    if q < before_destroyed.len() {
                        assert(before_destroyed[q] == x);
                        assert(before_destroyed.contains(x));
                    }
                }
                if next.contains(x) && is_destroyed(b0, d, h, x) {
                    let r = choose|r: int| 0 <= r < next.len() && next[r] == x;
                    if r < k {
                        assert(done[r] == x);
                        assert(done.contains(x));
                        assert(before_destroyed.contains(x));
                        let q = choose|q: int| 0 <= q < before_destroyed.len() && before_destroyed[q] == x;
                        assert(destroyed@[q] == x);
                    } else {
                        assert(x == t);
                        assert(destroyed@[destroyed.len() - 1] == x);
                    }
                }
            }
        }
        k = k + 1;
    }
    damage.0.clear();
    heal.0.clear();
    proof {
        assert(targets@.take(targets.len() as int) =~= targets@);
        assert forall|i: int| 0 <= i < b0.len() implies #[trigger] bodies@[i] == applied(b0, d, h, i) by {
            assert(bodies@[i] == settled_so_far(b0, d, h, targets@, i));
            if is_first_holder(b0, i) {
                if targets@.contains(b0[i].entity) {
                    assert(is_struck(d, h, b0[i].entity));
                } else {
                    assert(!is_struck(d, h, b0[i].entity));
                }
            }
        }
        assert forall|t: u64| #[trigger] destroyed@.contains(t) <==> is_destroyed(b0, d, h, t) by {
            if is_destroyed(b0, d, h, t) {
                assert(targets@.contains(t));
            }
        }
    }
    destroyed
}

} // verus!
