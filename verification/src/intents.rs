use vstd::prelude::*;

use crate::buffers::{
    damage_request_views, DamageIntent, DamageIntentBuffer, HealIntent, HealIntentBuffer,
    PendingDamage, PendingDamageView, PendingHeal, PendingHealEntry,
};
use crate::config::{scale, scaled, CombatConfig};
use crate::kinds::{damage_type_from_name, damage_type_named, DamageType, DamageTypeNames};

verus! {

/// The damage intent that a request against `target` of `amount` and the
/// given damage type becomes under the multiplier `multiplier_bp`.
pub open spec fn strike(target: u64, amount: u32, multiplier_bp: u32, damage_type: DamageType) -> DamageIntent {
    DamageIntent { source: 0, target, amount: scaled(amount, multiplier_bp), damage_type }
}

/// Whether a pending request is for kinetic damage (by its name in
/// `names`), which melee attacks deal.
pub open spec fn is_melee_request(names: DamageTypeNames, request: PendingDamageView) -> bool {
    request.damage_type == names.name_of(DamageType::Kinetic)
}

/// The intents that melee attacks make of `requests`, in request order.
pub open spec fn melee_intents(
    names: DamageTypeNames,
    requests: Seq<PendingDamageView>,
    multiplier_bp: u32,
) -> Seq<DamageIntent>
    decreases requests.len(),
{
    if requests.len() == 0 {
        Seq::empty()
    } else {
        let earlier = melee_intents(names, requests.drop_last(), multiplier_bp);
        let last = requests.last();
        if is_melee_request(names, last) {
            earlier.push(strike(last.target, last.amount, multiplier_bp, DamageType::Kinetic))
        } else {
            earlier
        }
    }
}

/// The requests that melee attacks leave pending, in request order.
pub open spec fn left_after_melee(names: DamageTypeNames, requests: Seq<PendingDamageView>) -> Seq<
    PendingDamageView,
>
    decreases requests.len(),
{
    if requests.len() == 0 {
        Seq::empty()
    } else {
        let earlier = left_after_melee(names, requests.drop_last());
        let last = requests.last();
        if is_melee_request(names, last) {
            earlier
        } else {
            earlier.push(last)
        }
    }
}

/// The intents that ranged attacks make of `requests`: every request whose
/// damage type name is known, in request order.
pub open spec fn ranged_intents(
    names: DamageTypeNames,
    requests: Seq<PendingDamageView>,
    multiplier_bp: u32,
) -> Seq<DamageIntent>
    decreases requests.len(),
{
    if requests.len() == 0 {
        Seq::empty()
    } else {
        let earlier = ranged_intents(names, requests.drop_last(), multiplier_bp);
        let last = requests.last();
        match damage_type_named(names, last.damage_type) {
            Some(t) => earlier.push(strike(last.target, last.amount, multiplier_bp, t)),
            None => earlier,
        }
    }
}

/// The requests that ranged attacks leave pending: those whose damage type
/// name is unknown, in request order.
pub open spec fn left_after_ranged(names: DamageTypeNames, requests: Seq<PendingDamageView>) -> Seq<
    PendingDamageView,
>
    decreases requests.len(),
{
    if requests.len() == 0 {
        Seq::empty()
    } else {
        let earlier = left_after_ranged(names, requests.drop_last());
        let last = requests.last();
        if damage_type_named(names, last.damage_type) is Some {
            earlier
        } else {
            earlier.push(last)
        }
    }
}

/// The heal intent that a pending heal request becomes.
pub open spec fn mend(request: PendingHealEntry) -> HealIntent {
    HealIntent { source: 0, target: request.target, amount: request.amount }
}

/// Melee attacks: turns every pending kinetic request into a damage intent
/// scaled by the damage multiplier, and leaves every other request pending.
pub fn attack_system(
    pending: &mut PendingDamage,
    intents: &mut DamageIntentBuffer,
    config: &CombatConfig,
    names: &DamageTypeNames,
)
    ensures
        final(pending)@ == left_after_melee(*names, old(pending)@),
        final(intents).0@ == old(intents).0@ + melee_intents(
            *names,
            old(pending)@,
            config.damage_multiplier_bp,
        ),
{
    let mut entries = Vec::new();
    std::mem::swap(&mut entries, &mut pending.entries);
    let ghost requests = damage_request_views(entries@);
    let kinetic = names.name(DamageType::Kinetic);
    let mut i: usize = 0;
    while i < entries.len()
        invariant
            requests == damage_request_views(entries@),
            requests == old(pending)@,
            0 <= i <= entries.len(),
            kinetic@ == names.name_of(DamageType::Kinetic),
            pending@ == left_after_melee(*names, requests.take(i as int)),
            intents.0@ == old(intents).0@ + melee_intents(
                *names,
                requests.take(i as int),
                config.damage_multiplier_bp,
            ),
        decreases entries.len() - i,
    {
        let entry = &entries[i];
        proof {
            assert(requests.take(i + 1).drop_last() =~= requests.take(i as int));
            assert(requests.take(i + 1).last() == entry@);
        }
        if entry.damage_type == *kinetic {
            let intent = DamageIntent {
                source: 0,
                target: entry.target,
                amount: scale(entry.amount, config.damage_multiplier_bp),
                damage_type: DamageType::Kinetic,
            };
            intents.0.push(intent);
            proof {
                assert(intents.0@ =~= old(intents).0@ + melee_intents(
                    *names,
                    requests.take(i + 1),
                    config.damage_multiplier_bp,
                ));
            }
        } else {
            let kept = entry.duplicate();
            let ghost before = pending.entries@;
            pending.entries.push(kept);
            proof {
                assert(damage_request_views(pending.entries@) =~= damage_request_views(before).push(
                    kept@,
                ));
            }
        }
        i = i + 1;
    }
    proof {
        assert(requests.take(entries.len() as int) =~= requests);
    }
}

/// Ranged attacks: turns every pending request whose damage type name is
/// known into a damage intent of that type scaled by the damage multiplier,
/// and leaves every other request pending.
pub fn ranged_attack_system(
    pending: &mut PendingDamage,
    intents: &mut DamageIntentBuffer,
    config: &CombatConfig,
    names: &DamageTypeNames,
)
    ensures
        final(pending)@ == left_after_ranged(*names, old(pending)@),
        final(intents).0@ == old(intents).0@ + ranged_intents(
            *names,
            old(pending)@,
            config.damage_multiplier_bp,
        ),
{
    let mut entries = Vec::new();
    std::mem::swap(&mut entries, &mut pending.entries);
    let ghost requests = damage_request_views(entries@);
    let mut i: usize = 0;
    while i < entries.len()
        invariant
            requests == damage_request_views(entries@),
            requests == old(pending)@,
            0 <= i <= entries.len(),
            pending@ == left_after_ranged(*names, requests.take(i as int)),
            intents.0@ == old(intents).0@ + ranged_intents(
                *names,
                requests.take(i as int),
                config.damage_multiplier_bp,
            ),
        decreases entries.len() - i,
    {
        let entry = &entries[i];
        proof {
            assert(requests.take(i + 1).drop_last() =~= requests.take(i as int));
            assert(requests.take(i + 1).last() == entry@);
        }
        match damage_type_from_name(names, entry.damage_type.as_str()) {
            Some(damage_type) => {
                let intent = DamageIntent {
                    source: 0,
                    target: entry.target,
                    amount: scale(entry.amount, config.damage_multiplier_bp),
                    damage_type,
                };
                intents.0.push(intent);
                proof {
                    assert(intents.0@ =~= old(intents).0@ + ranged_intents(
                        *names,
                        requests.take(i + 1),
                        config.damage_multiplier_bp,
                    ));
                }
            },
            None => {
                let kept = entry.duplicate();
                let ghost before = pending.entries@;
                pending.entries.push(kept);
                proof {
                    assert(damage_request_views(pending.entries@) =~= damage_request_views(
                        before,
                    ).push(kept@));
                }
            },
        }
        i = i + 1;
    }
    proof {
        assert(requests.take(entries.len() as int) =~= requests);
    }
}

/// Healing: turns every pending heal request into a heal intent, in order,
/// and leaves none pending.
pub fn heal_system(pending: &mut PendingHeal, intents: &mut HealIntentBuffer)
    ensures
        final(pending).entries@ == Seq::<PendingHealEntry>::empty(),
        final(intents).0@ == old(intents).0@ + old(pending).entries@.map_values(
            |r: PendingHealEntry| mend(r),
        ),
{
    let mut entries = Vec::new();
    std::mem::swap(&mut entries, &mut pending.entries);
    let mut i: usize = 0;
    while i < entries.len()
        invariant
            entries@ == old(pending).entries@,
            pending.entries@ == Seq::<PendingHealEntry>::empty(),
            0 <= i <= entries.len(),
            intents.0@ == old(intents).0@ + entries@.take(i as int).map_values(
                |r: PendingHealEntry| mend(r),
            ),
        decreases entries.len() - i,
    {
        let entry = entries[i];
        intents.0.push(HealIntent { source: 0, target: entry.target, amount: entry.amount });
        proof {
            assert(entries@.take(i + 1) =~= entries@.take(i as int).push(entry));
            assert(intents.0@ =~= old(intents).0@ + entries@.take(i + 1).map_values(
                |r: PendingHealEntry| mend(r),
            ));
        }
        i = i + 1;
    }
    proof {
        assert(entries@.take(entries.len() as int) =~= entries@);
    }
}

/// Melee attacks treat requests one by one: the intents made of two
/// batches are those made of the first followed by those of the second, and
/// likewise for what stays pending.
pub proof fn lemma_melee_batches(
    names: DamageTypeNames,
    a: Seq<PendingDamageView>,
    b: Seq<PendingDamageView>,
    multiplier_bp: u32,
)
    ensures
        melee_intents(names, a + b, multiplier_bp) == melee_intents(names, a, multiplier_bp)
            + melee_intents(names, b, multiplier_bp),
        left_after_melee(names, a + b) == left_after_melee(names, a) + left_after_melee(names, b),
    decreases b.len(),
{
    if b.len() == 0 {
        assert(a + b =~= a);
        assert(melee_intents(names, a, multiplier_bp) + melee_intents(names, b, multiplier_bp)
            =~= melee_intents(names, a, multiplier_bp));
        assert(left_after_melee(names, a) + left_after_melee(names, b) =~= left_after_melee(names, a));
    } else {
        lemma_melee_batches(names, a, b.drop_last(), multiplier_bp);
        assert((a + b).drop_last() =~= a + b.drop_last());
        assert((a + b).last() == b.last());
        assert((melee_intents(names, a, multiplier_bp) + melee_intents(names, b.drop_last(), multiplier_bp)).push(
            strike(b.last().target, b.last().amount, multiplier_bp, DamageType::Kinetic),
        ) =~= melee_intents(names, a, multiplier_bp) + melee_intents(names, b.drop_last(), multiplier_bp).push(
            strike(b.last().target, b.last().amount, multiplier_bp, DamageType::Kinetic),
        ));
        assert((left_after_melee(names, a) + left_after_melee(names, b.drop_last())).push(b.last())
            =~= left_after_melee(names, a) + left_after_melee(names, b.drop_last()).push(b.last()));
    }
}

/// A single request named kinetic becomes one kinetic intent from no
/// source, on its target, of its amount scaled by the multiplier, and does
/// not stay pending; any other request makes no melee intent and stays.
pub proof fn lemma_melee_one_request(names: DamageTypeNames, r: PendingDamageView, multiplier_bp: u32)
    ensures
        r.damage_type == names.name_of(DamageType::Kinetic) ==> melee_intents(names, seq![r], multiplier_bp)
            == seq![DamageIntent { source: 0, target: r.target, amount: scaled(r.amount, multiplier_bp), damage_type: DamageType::Kinetic }]
            && left_after_melee(names, seq![r]) == Seq::<PendingDamageView>::empty(),
        r.damage_type != names.name_of(DamageType::Kinetic) ==> melee_intents(names, seq![r], multiplier_bp)
            == Seq::<DamageIntent>::empty() && left_after_melee(names, seq![r]) == seq![r],
{
    reveal_with_fuel(melee_intents, 2);
    reveal_with_fuel(left_after_melee, 2);
    assert(seq![r].drop_last() =~= Seq::<PendingDamageView>::empty());
    assert(seq![r].last() == r);
    assert(Seq::<DamageIntent>::empty().push(strike(r.target, r.amount, multiplier_bp, DamageType::Kinetic))
        =~= seq![DamageIntent { source: 0, target: r.target, amount: scaled(r.amount, multiplier_bp), damage_type: DamageType::Kinetic }]);
    assert(Seq::<PendingDamageView>::empty().push(r) =~= seq![r]);
}

/// Ranged attacks treat requests one by one: the intents made of two
/// batches are those made of the first followed by those of the second, and
/// likewise for what stays pending.
pub proof fn lemma_ranged_batches(
    names: DamageTypeNames,
    a: Seq<PendingDamageView>,
    b: Seq<PendingDamageView>,
    multiplier_bp: u32,
)
    ensures
        ranged_intents(names, a + b, multiplier_bp) == ranged_intents(names, a, multiplier_bp)
            + ranged_intents(names, b, multiplier_bp),
        left_after_ranged(names, a + b) == left_after_ranged(names, a) + left_after_ranged(names, b),
    decreases b.len(),
{
    if b.len() == 0 {
        assert(a + b =~= a);
        assert(ranged_intents(names, a, multiplier_bp) + ranged_intents(names, b, multiplier_bp)
            =~= ranged_intents(names, a, multiplier_bp));
        assert(left_after_ranged(names, a) + left_after_ranged(names, b) =~= left_after_ranged(names, a));
    } else {
        lemma_ranged_batches(names, a, b.drop_last(), multiplier_bp);
        assert((a + b).drop_last() =~= a + b.drop_last());
        assert((a + b).last() == b.last());
        match damage_type_named(names, b.last().damage_type) {
            Some(t) => {
                assert((ranged_intents(names, a, multiplier_bp) + ranged_intents(names, b.drop_last(), multiplier_bp)).push(
                    strike(b.last().target, b.last().amount, multiplier_bp, t),
                ) =~= ranged_intents(names, a, multiplier_bp) + ranged_intents(names, b.drop_last(), multiplier_bp).push(
                    strike(b.last().target, b.last().amount, multiplier_bp, t),
                ));
            },
            None => {
                assert((left_after_ranged(names, a) + left_after_ranged(names, b.drop_last())).push(b.last())
                    =~= left_after_ranged(names, a) + left_after_ranged(names, b.drop_last()).push(b.last()));
            },
        }
    }
}

/// A single request whose name some damage type has becomes one intent of
/// the type found, from no source, on its target, of its amount scaled by
/// the multiplier, and does not stay pending; a request whose name no type
/// has makes no intent and stays.
pub proof fn lemma_ranged_one_request(names: DamageTypeNames, r: PendingDamageView, multiplier_bp: u32)
    ensures
        damage_type_named(names, r.damage_type) matches Some(t) ==> names.name_of(t) == r.damage_type
            && ranged_intents(names, seq![r], multiplier_bp) == seq![DamageIntent { source: 0, target: r.target, amount: scaled(r.amount, multiplier_bp), damage_type: t }]
            && left_after_ranged(names, seq![r]) == Seq::<PendingDamageView>::empty(),
        (forall|t: DamageType| names.name_of(t) != r.damage_type) ==> ranged_intents(
            names,
            seq![r],
            multiplier_bp,
        ) == Seq::<DamageIntent>::empty() && left_after_ranged(names, seq![r]) == seq![r],
{
    reveal_with_fuel(ranged_intents, 2);
    reveal_with_fuel(left_after_ranged, 2);
    crate::kinds::lemma_name_lookup(names, r.damage_type, DamageType::Kinetic);
    assert(seq![r].drop_last() =~= Seq::<PendingDamageView>::empty());
    assert(seq![r].last() == r);
    assert(Seq::<PendingDamageView>::empty().push(r) =~= seq![r]);
    match damage_type_named(names, r.damage_type) {
        Some(t) => {
            assert(Seq::<DamageIntent>::empty().push(strike(r.target, r.amount, multiplier_bp, t))
                =~= seq![DamageIntent { source: 0, target: r.target, amount: scaled(r.amount, multiplier_bp), damage_type: t }]);
        },
        None => {},
    }
    if forall|t: DamageType| names.name_of(t) != r.damage_type {
        assert(names.name_of(DamageType::Kinetic) != r.damage_type);
        assert(names.name_of(DamageType::Thermal) != r.damage_type);
        assert(names.name_of(DamageType::EMP) != r.damage_type);
        assert(names.name_of(DamageType::Sonic) != r.damage_type);
        assert(names.name_of(DamageType::Corrosive) != r.damage_type);
        assert(names.name_of(DamageType::Psionic) != r.damage_type);
    }
}

/// Every heal intent is made from no source, on the request's target, with
/// the request's amount.
pub proof fn lemma_heal_keeps_target_and_amount(r: PendingHealEntry)
    ensures
        mend(r) == (HealIntent { source: 0, target: r.target, amount: r.amount }),
{
}

/// Whatever melee attacks take, ranged attacks would take too: running melee
/// attacks first does not change which requests remain pending after ranged
/// attacks.
pub proof fn lemma_melee_then_ranged_leaves_unknown_names(
    names: DamageTypeNames,
    requests: Seq<PendingDamageView>,
)
    ensures
        left_after_ranged(names, left_after_melee(names, requests)) == left_after_ranged(names, requests),
    decreases requests.len(),
{
    if requests.len() > 0 {
        lemma_melee_then_ranged_leaves_unknown_names(names, requests.drop_last());
        let last = requests.last();
        let earlier = left_after_melee(names, requests.drop_last());
        if !is_melee_request(names, last) {
            assert(earlier.push(last).drop_last() =~= earlier);
        }
    }
}

/// Every request is either taken by melee attacks or left pending by them:
/// the two counts add up to the number of requests.
pub proof fn lemma_melee_partitions_requests(
    names: DamageTypeNames,
    requests: Seq<PendingDamageView>,
    multiplier_bp: u32,
)
    ensures
        melee_intents(names, requests, multiplier_bp).len() + left_after_melee(names, requests).len()
            == requests.len(),
    decreases requests.len(),
{
    if requests.len() > 0 {
        lemma_melee_partitions_requests(names, requests.drop_last(), multiplier_bp);
    }
}

} // verus!
