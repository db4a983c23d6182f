use std::collections::BTreeMap;
use vstd::prelude::*;

use crate::buffers::{
    PendingSpecialAttack, ResolvedStatusIntent, ResolvedStatusIntents, StatusActionIntent,
};
use crate::kinds::SpecialAttackKind;

verus! {

/// The status effects on a unit: for each kind, its amount.
#[derive(Debug)]
pub struct StatusState {
    pub effects: BTreeMap<SpecialAttackKind, u32>,
}

impl Default for StatusState {
    fn default() -> (state: Self)
        ensures
            state.effects@ == Map::<SpecialAttackKind, u32>::empty(),
    {
        StatusState { effects: BTreeMap::new() }
    }
}

impl Default for ResolvedStatusIntents {
    fn default() -> (resolved: Self)
        ensures
            resolved.entries@ == Seq::<ResolvedStatusIntent>::empty(),
    {
        ResolvedStatusIntents { entries: Vec::new() }
    }
}

/// The order in which special attacks are resolved: higher kinds first, then
/// lower sources, then lower targets.
pub open spec fn status_precedes(a: StatusActionIntent, b: StatusActionIntent) -> bool {
    ||| a.kind.rank > b.kind.rank
    ||| a.kind.rank == b.kind.rank && a.source < b.source
    ||| a.kind.rank == b.kind.rank && a.source == b.source && a.target < b.target
}

/// Whether `intents[i]` is the special attack that takes effect on its
/// target: no attack on the same target precedes it, and it precedes every
/// earlier attack on that target (of two alike, the first one made wins).
pub open spec fn prevails(intents: Seq<StatusActionIntent>, i: int) -> bool {
    &&& 0 <= i < intents.len()
    &&& forall|j: int|
        0 <= j < intents.len() && #[trigger] intents[j].target == intents[i].target ==> {
            &&& !status_precedes(intents[j], intents[i])
            &&& (j < i ==> status_precedes(intents[i], intents[j]))
        }
}

/// Whether `order` lists exactly the prevailing attacks, each once, in
/// resolution order.
pub open spec fn is_resolution_order(intents: Seq<StatusActionIntent>, order: Seq<usize>) -> bool {
    &&& forall|k: int| 0 <= k < order.len() ==> prevails(intents, #[trigger] order[k] as int)
    &&& forall|i: usize| prevails(intents, i as int) ==> #[trigger] order.contains(i)
    &&& forall|k1: int, k2: int|
        0 <= k1 < k2 < order.len() ==> status_precedes(
            #[trigger] intents[order[k1] as int],
            #[trigger] intents[order[k2] as int],
        )
}

/// What a special attack leaves once resolved.
pub open spec fn resolved(intent: StatusActionIntent) -> ResolvedStatusIntent {
    ResolvedStatusIntent { kind: intent.kind, target: intent.target, amount: intent.amount }
}

/// The resolved attacks listed by `order`.
pub open spec fn resolved_in_order(intents: Seq<StatusActionIntent>, order: Seq<usize>) -> Seq<
    ResolvedStatusIntent,
> {
    order.map_values(|i: usize| resolved(intents[i as int]))
}

/// Whether one of the attacks listed by `chosen` is on `target`.
pub open spec fn target_covered(intents: Seq<StatusActionIntent>, chosen: Seq<usize>, target: u64) -> bool {
    exists|k: int| 0 <= k < chosen.len() && intents[#[trigger] chosen[k] as int].target == target
}

/// Whether `intents[i]` prevails among the first `n` attacks.
pub open spec fn prevails_among(intents: Seq<StatusActionIntent>, i: int, n: int) -> bool {
    &&& 0 <= i < n <= intents.len()
    &&& forall|j: int|
        0 <= j < n && #[trigger] intents[j].target == intents[i].target ==> {
            &&& !status_precedes(intents[j], intents[i])
            &&& (j < i ==> status_precedes(intents[i], intents[j]))
        }
}

/// For each target, the index of the prevailing attack, in order of first appearance.
fn prevailing_indices(intents: &Vec<StatusActionIntent>) -> (chosen: Vec<usize>)
    ensures
        forall|k: int| 0 <= k < chosen.len() ==> prevails(intents@, #[trigger] chosen@[k] as int),
        forall|i: int| prevails(intents@, i) ==> #[trigger] chosen@.contains(i as usize),
        forall|k1: int, k2: int|
            0 <= k1 < chosen.len() && 0 <= k2 < chosen.len() && k1 != k2 ==> intents@[
                #[trigger] chosen@[k1] as int].target != intents@[#[trigger] chosen@[k2] as int].target,
        forall|j: int|
            0 <= j < intents.len() ==> target_covered(intents@, chosen@, #[trigger] intents@[j].target),
{
    let mut chosen: Vec<usize> = Vec::new();
    let mut n: usize = 0;
    while n < intents.len()
        invariant
            0 <= n <= intents.len(),
            forall|k: int|
                0 <= k < chosen.len() ==> prevails_among(intents@, #[trigger] chosen@[k] as int, n as int),
            forall|j: int| 0 <= j < n ==> target_covered(intents@, chosen@, #[trigger] intents@[j].target),
            forall|k1: int, k2: int|
                0 <= k1 < chosen.len() && 0 <= k2 < chosen.len() && k1 != k2 ==> intents@[
                    #[trigger] chosen@[k1] as int].target != intents@[#[trigger] chosen@[k2] as int].target,
        decreases intents.len() - n,
    {
        let current = intents[n];
        let mut k: usize = 0;
        let mut found: Option<usize> = None;
        while k < chosen.len()
            invariant
                0 <= k <= chosen.len(),
                n < intents.len(),
                current == intents@[n as int],
                forall|kk: int| 0 <= kk < chosen.len() ==> #[trigger] chosen@[kk] < n,
                match found {
                    Some(f) => f < chosen.len() && intents@[chosen@[f as int] as int].target
                        == current.target,
                    None => forall|kk: int|
                        0 <= kk < k ==> intents@[#[trigger] chosen@[kk] as int].target
                            != current.target,
                },
            decreases chosen.len() - k,
        {
            if found.is_none() && intents[chosen[k]].target == current.target {
                found = Some(k);
            }
            k = k + 1;
        }
        let ghost before = chosen@;
        match found {
            None => {
                chosen.push(n);
                proof {
                    assert forall|j: int| 0 <= j < n + 1 implies target_covered(
                        intents@,
                        chosen@,
                        #[trigger] intents@[j].target,
                    ) by {
                        if j == n {
                            assert(chosen@[before.len() as int] == n);
                        } else {
                            let kk = choose|kk: int|
                                0 <= kk < before.len() && intents@[#[trigger] before[kk] as int].target
                                    == intents@[j].target;
                            assert(chosen@[kk] == before[kk]);
                        }
                    }
                    assert forall|kk: int| 0 <= kk < chosen.len() implies prevails_among(
                        intents@,
                        #[trigger] chosen@[kk] as int,
                        n + 1,
                    ) by {
                        if kk == before.len() {
                            assert forall|j: int|
                                0 <= j < n + 1 && #[trigger] intents@[j].target
                                    == intents@[n as int].target implies {
                                &&& !status_precedes(intents@[j], intents@[n as int])
                                &&& (j < n ==> status_precedes(intents@[n as int], intents@[j]))
                            } by {
                                if j < n {
                                    let k2 = choose|k2: int|
                                        0 <= k2 < before.len() && intents@[#[trigger] before[k2] as int].target
                                            == intents@[j].target;
                                    assert(intents@[before[k2] as int].target != current.target);
                                }
                            }
                        } else {
                            assert(chosen@[kk] == before[kk]);
                            assert(prevails_among(intents@, before[kk] as int, n as int));
                        }
                    }
                }
            },
            Some(f) => {
                let w = chosen[f];
                if status_precedes_exec(&current, &intents[w]) {
                    chosen.set(f, n);
                    proof {
                        assert(prevails_among(intents@, w as int, n as int));
                        assert forall|kk: int| 0 <= kk < chosen.len() implies prevails_among(
                            intents@,
                            #[trigger] chosen@[kk] as int,
                            n + 1,
                        ) by {
                            if kk == f {
                                assert forall|j: int|
                                    0 <= j < n + 1 && #[trigger] intents@[j].target
                                        == intents@[n as int].target implies {
                                    &&& !status_precedes(intents@[j], intents@[n as int])
                                    &&& (j < n ==> status_precedes(intents@[n as int], intents@[j]))
                                } by {
                                    if j < n {
                                        assert(intents@[j].target == intents@[w as int].target);
                                    }
                                }
                            } else {
                                assert(chosen@[kk] == before[kk]);
                                assert(prevails_among(intents@, before[kk] as int, n as int));
                                assert(intents@[before[kk] as int].target != intents@[w as int].target);
                            }
                        }
                        assert forall|j: int| 0 <= j < n + 1 implies target_covered(
                            intents@,
                            chosen@,
                            #[trigger] intents@[j].target,
                        ) by {
                            if j == n {
                                assert(chosen@[f as int] == n);
                            } else {
                                let kk = choose|kk: int|
                                    0 <= kk < before.len() && intents@[#[trigger] before[kk] as int].target
                                        == intents@[j].target;
                                if kk == f {
                                    assert(chosen@[kk] == n);
                                } else {
                                    assert(chosen@[kk] == before[kk]);
                                }
                            }
                        }
                    }
                } else {
                    proof {
                        assert forall|kk: int| 0 <= kk < chosen.len() implies prevails_among(
                            intents@,
                            #[trigger] chosen@[kk] as int,
                            n + 1,
                        ) by {
                            assert(prevails_among(intents@, chosen@[kk] as int, n as int));
                            if kk != f {
                                assert(intents@[chosen@[kk] as int].target != intents@[w as int].target);
                            }
                        }
                        assert forall|j: int| 0 <= j < n + 1 implies target_covered(
                            intents@,
                            chosen@,
                            #[trigger] intents@[j].target,
                        ) by {
                            if j == n {
                                assert(intents@[chosen@[f as int] as int].target == intents@[j].target);
                            }
                        }
                    }
                }
            },
        }
        n = n + 1;
    }
    proof {
        assert forall|k: int| 0 <= k < chosen.len() implies prevails(intents@, #[trigger] chosen@[k] as int) by {
            assert(prevails_among(intents@, chosen@[k] as int, intents.len() as int));
        }
        assert forall|i: int| prevails(intents@, i) implies #[trigger] chosen@.contains(i as usize) by {
            let k = choose|k: int|
                0 <= k < chosen.len() && intents@[#[trigger] chosen@[k] as int].target
                    == intents@[i].target;
            let c = chosen@[k] as int;
            assert(prevails_among(intents@, c, intents.len() as int));
            if c != i {
                assert(intents@[c].target == intents@[i].target);
                assert(intents@[i].target == intents@[c].target);
                assert(false);
            }
        }
    }
    chosen
}

/// Decides whether attack `a` is resolved before attack `b`.
fn status_precedes_exec(a: &StatusActionIntent, b: &StatusActionIntent) -> (p: bool)
    ensures
        p == status_precedes(*a, *b),
{
    a.kind.rank > b.kind.rank || (a.kind.rank == b.kind.rank && (a.source < b.source || (
    a.source == b.source && a.target < b.target)))
}

/// Lists the prevailing attacks `chosen` (whose targets differ) in resolution order.
fn resolution_order(intents: &Vec<StatusActionIntent>, chosen: &Vec<usize>) -> (order: Vec<usize>)
    requires
        forall|k: int| 0 <= k < chosen.len() ==> prevails(intents@, #[trigger] chosen@[k] as int),
        forall|k1: int, k2: int|
            0 <= k1 < chosen.len() && 0 <= k2 < chosen.len() && k1 != k2 ==> intents@[
                #[trigger] chosen@[k1] as int].target != intents@[#[trigger] chosen@[k2] as int].target,
    ensures
        forall|k: int| 0 <= k < order.len() ==> prevails(intents@, #[trigger] order@[k] as int),
        forall|k: int| 0 <= k < chosen.len() ==> order@.contains(#[trigger] chosen@[k]),
        forall|k1: int, k2: int|
            0 <= k1 < k2 < order.len() ==> status_precedes(
                #[trigger] intents@[order@[k1] as int],
                #[trigger] intents@[order@[k2] as int],
            ),
{
    let mut order: Vec<usize> = Vec::new();
    let mut m: usize = 0;
    while m < chosen.len()
        invariant
            0 <= m <= chosen.len(),
            forall|k: int| 0 <= k < chosen.len() ==> prevails(intents@, #[trigger] chosen@[k] as int),
            forall|k1: int, k2: int|
                0 <= k1 < chosen.len() && 0 <= k2 < chosen.len() && k1 != k2 ==> intents@[
                    #[trigger] chosen@[k1] as int].target != intents@[#[trigger] chosen@[k2] as int].target,
            forall|k: int| 0 <= k < order.len() ==> prevails(intents@, #[trigger] order@[k] as int),
            forall|k: int| 0 <= k < m ==> order@.contains(#[trigger] chosen@[k]),
            forall|k: int, j: int|
                0 <= k < order.len() && m <= j < chosen.len() ==> intents@[#[trigger] order@[k] as int].target
                    != intents@[#[trigger] chosen@[j] as int].target,
            forall|k1: int, k2: int|
                0 <= k1 < k2 < order.len() ==> status_precedes(
                    #[trigger] intents@[order@[k1] as int],
                    #[trigger] intents@[order@[k2] as int],
                ),
        decreases chosen.len() - m,
    {
        let x = chosen[m];
        assert(prevails(intents@, chosen@[m as int] as int));
        let mut p: usize = 0;
        while p < order.len() && !status_precedes_exec(&intents[x], &intents[order[p]])
            invariant
                0 <= p <= order.len(),
                x == chosen@[m as int],
                prevails(intents@, x as int),
                forall|k: int| 0 <= k < order.len() ==> prevails(intents@, #[trigger] order@[k] as int),
                forall|q: int|
                    0 <= q < p ==> !status_precedes(intents@[x as int], #[trigger] intents@[order@[q] as int]),
            decreases order.len() - p,
        {
            p = p + 1;
        }
        let ghost before = order@;
        order.insert(p, x);
        proof {
            assert(order@ == before.insert(p as int, x));
            assert forall|k: int| 0 <= k < order.len() implies prevails(intents@, #[trigger] order@[k] as int) by {
                if k < p {
                    assert(order@[k] == before[k]);
                } else if k > p {
                    assert(order@[k] == before[k - 1]);
                }
            }
            assert forall|k: int| 0 <= k < m + 1 implies order@.contains(#[trigger] chosen@[k]) by {
                if k == m {
                    assert(order@[p as int] == x);
                } else {
                    let i = choose|i: int| 0 <= i < before.len() && before[i] == chosen@[k];
                    if i < p {
                        assert(order@[i] == chosen@[k]);
                    } else {
                        assert(order@[i + 1] == chosen@[k]);
                    }
                }
            }
            assert forall|k: int, j: int|
                0 <= k < order.len() && m + 1 <= j < chosen.len() implies intents@[#[trigger] order@[k] as int].target
                    != intents@[#[trigger] chosen@[j] as int].target by {
                if k < p {
                    assert(order@[k] == before[k]);
                } else if k > p {
                    assert(order@[k] == before[k - 1]);
                } else {
                    assert(order@[k] == chosen@[m as int]);
                }
            }
            assert forall|k1: int, k2: int|
                0 <= k1 < k2 < order.len() implies status_precedes(
                    #[trigger] intents@[order@[k1] as int],
                    #[trigger] intents@[order@[k2] as int],
                ) by {
                if k2 < p {
                    assert(order@[k1] == before[k1]);
                    assert(order@[k2] == before[k2]);
                } else if k2 == p {
                    assert(order@[k1] == before[k1]);
                    assert(!status_precedes(intents@[x as int], intents@[before[k1] as int]));
                    assert(intents@[before[k1] as int].target != intents@[chosen@[m as int] as int].target);
                } else if k1 > p {
                    assert(order@[k1] == before[k1 - 1]);
                    assert(order@[k2] == before[k2 - 1]);
                } else if k1 == p {
                    assert(order@[k2] == before[k2 - 1]);
                    assert(p < before.len());
                    assert(status_precedes(intents@[x as int], intents@[before[p as int] as int]));
                    if k2 - 1 > p {
                        assert(status_precedes(intents@[before[p as int] as int], intents@[before[k2 - 1] as int]));
                    }
                } else {
                    assert(order@[k1] == before[k1]);
                    assert(order@[k2] == before[k2 - 1]);
                }
            }
        }
        m = m + 1;
    }
    order
}

/// Whether `entries` is what resolving `intents` gives: one entry per
/// target, for the attack that prevails on it, in resolution order.
pub open spec fn is_resolution_of(intents: Seq<StatusActionIntent>, entries: Seq<ResolvedStatusIntent>) -> bool {
    exists|order: Seq<usize>|
        is_resolution_order(intents, order) && entries == #[trigger] resolved_in_order(intents, order)
}

/// Special attacks: of all attacks made this tick, the one that prevails on
/// each target takes effect; they are listed in resolution order, and the
/// attacks made are consumed.
pub fn special_attack_reducer(input: &mut PendingSpecialAttack, output: &mut ResolvedStatusIntents)
    ensures
        final(input).intents@ == Seq::<StatusActionIntent>::empty(),
        is_resolution_of(old(input).intents@, final(output).entries@),
        forall|k1: int, k2: int|
            0 <= k1 < k2 < final(output).entries.len() ==> (#[trigger] final(output).entries@[k1]).target
                != (#[trigger] final(output).entries@[k2]).target,
        forall|j: int|
            0 <= j < old(input).intents.len() ==> resolves_target(
                final(output).entries@,
                #[trigger] old(input).intents@[j].target,
            ),
        forall|k: int, j: int|
            0 <= k < final(output).entries.len() && 0 <= j < old(input).intents.len() && (
            #[trigger] old(input).intents@[j]).target == (#[trigger] final(output).entries@[k]).target
                ==> old(input).intents@[j].kind.rank <= final(output).entries@[k].kind.rank,
{
    let mut raw = Vec::new();
    std::mem::swap(&mut raw, &mut input.intents);
    let chosen = prevailing_indices(&raw);
    let order = resolution_order(&raw, &chosen);
    let mut entries: Vec<ResolvedStatusIntent> = Vec::new();
    let mut k: usize = 0;
    while k < order.len()
        invariant
            0 <= k <= order.len(),
            forall|q: int| 0 <= q < order.len() ==> prevails(raw@, #[trigger] order@[q] as int),
            entries@ == resolved_in_order(raw@, order@.take(k as int)),
        decreases order.len() - k,
    {
        let intent = raw[order[k]];
        entries.push(ResolvedStatusIntent { kind: intent.kind, target: intent.target, amount: intent.amount });
        proof {
            assert(order@.take(k + 1) =~= order@.take(k as int).push(order@[k as int]));
            assert(entries@ =~= resolved_in_order(raw@, order@.take(k + 1)));
        }
        k = k + 1;
    }
    proof {
        assert(order@.take(order.len() as int) =~= order@);
        assert forall|i: usize| prevails(raw@, i as int) implies #[trigger] order@.contains(i) by {
            assert(chosen@.contains((i as int) as usize));
            let k = choose|k: int| 0 <= k < chosen.len() && chosen@[k] == i;
            assert(order@.contains(chosen@[k]));
        }
        assert(is_resolution_order(raw@, order@));
        assert forall|k1: int, k2: int| 0 <= k1 < k2 < entries.len() implies (#[trigger] entries@[k1]).target
            != (#[trigger] entries@[k2]).target by {
            let a = order@[k1] as int;
            let b = order@[k2] as int;
            assert(status_precedes(raw@[a], raw@[b]));
            if raw@[a].target == raw@[b].target {
                lemma_prevailing_unique(raw@, a, b);
            }
        }
        assert forall|j: int| 0 <= j < raw.len() implies resolves_target(
            entries@,
            #[trigger] raw@[j].target,
        ) by {
            assert(target_covered(raw@, chosen@, raw@[j].target));
            let c = choose|c: int| 0 <= c < chosen.len() && raw@[#[trigger] chosen@[c] as int].target == raw@[j].target;
            assert(order@.contains(chosen@[c]));
            let k = choose|k: int| 0 <= k < order.len() && order@[k] == chosen@[c];
            assert(entries@[k].target == raw@[j].target);
        }
        assert forall|k: int, j: int|
            0 <= k < entries.len() && 0 <= j < raw.len() && (#[trigger] raw@[j]).target == (
            #[trigger] entries@[k]).target implies raw@[j].kind.rank <= entries@[k].kind.rank by {
            let w = order@[k] as int;
            assert(prevails(raw@, w));
            assert(raw@[j].target == raw@[w].target);
        }
    }
    output.entries = entries;
}

/// Whether some resolved entry is on `target`.
pub open spec fn resolves_target(entries: Seq<ResolvedStatusIntent>, target: u64) -> bool {
    exists|k: int| 0 <= k < entries.len() && (#[trigger] entries[k]).target == target
}

/// On any one target at most one attack prevails.
pub proof fn lemma_prevailing_unique(intents: Seq<StatusActionIntent>, i: int, k: int)
    requires
        prevails(intents, i),
        prevails(intents, k),
        intents[i].target == intents[k].target,
    ensures
        i == k,
{
    assert(intents[k].target == intents[i].target);
}

/// The attack that prevails on a target has the highest kind among the
/// attacks on it, the lowest source among those of that kind, and is the
/// first one made among those alike.
pub proof fn lemma_prevailing_attack(intents: Seq<StatusActionIntent>, i: int, j: int)
    requires
        prevails(intents, i),
        0 <= j < intents.len(),
        intents[j].target == intents[i].target,
    ensures
        intents[j].kind.rank <= intents[i].kind.rank,
        intents[j].kind.rank == intents[i].kind.rank ==> intents[i].source <= intents[j].source,
        j < i ==> intents[j].kind.rank < intents[i].kind.rank || intents[i].source < intents[j].source,
{
}

/// Resolution lists higher kinds first, and among attacks of one kind the
/// lower sources first, then the lower targets.
pub proof fn lemma_resolution_order_ranks(
    intents: Seq<StatusActionIntent>,
    order: Seq<usize>,
    k1: int,
    k2: int,
)
    requires
        is_resolution_order(intents, order),
        0 <= k1 < k2 < order.len(),
    ensures
        ({
            let a = intents[order[k1] as int];
            let b = intents[order[k2] as int];
            &&& a.kind.rank >= b.kind.rank
            &&& a.kind.rank == b.kind.rank ==> a.source <= b.source
            &&& a.kind.rank == b.kind.rank && a.source == b.source ==> a.target < b.target
        }),
{
    assert(status_precedes(intents[order[k1] as int], intents[order[k2] as int]));
}

/// Whether `s` lists attacks in strictly increasing resolution order.
pub open spec fn in_resolution_order(intents: Seq<StatusActionIntent>, s: Seq<usize>) -> bool {
    forall|k1: int, k2: int|
        0 <= k1 < k2 < s.len() ==> status_precedes(
            #[trigger] intents[s[k1] as int],
            #[trigger] intents[s[k2] as int],
        )
}

proof fn lemma_ordered_lists_equal(intents: Seq<StatusActionIntent>, a: Seq<usize>, b: Seq<usize>)
    requires
        in_resolution_order(intents, a),
        in_resolution_order(intents, b),
        forall|x: usize| a.contains(x) <==> b.contains(x),
    ensures
        a == b,
    decreases a.len(),
{
    if a.len() == 0 {
        if b.len() > 0 {
            assert(b.contains(b[0]));
        }
        assert(a =~= b);
    } else {
        assert(a.contains(a[0]));
        assert(b.contains(a[0]));
        let p = choose|p: int| 0 <= p < b.len() && b[p] == a[0];
        assert(b.contains(b[0]));
        let q = choose|q: int| 0 <= q < a.len() && a[q] == b[0];
        if p > 0 {
            assert(status_precedes(intents[b[0] as int], intents[b[p] as int]));
            if q > 0 {
                assert(status_precedes(intents[a[0] as int], intents[a[q] as int]));
            }
            assert(false);
        }
        let a1 = a.drop_first();
        let b1 = b.drop_first();
        assert forall|x: usize| a1.contains(x) <==> b1.contains(x) by {
            if a1.contains(x) {
                let i = choose|i: int| 0 <= i < a1.len() && a1[i] == x;
                assert(a[i + 1] == x);
                assert(status_precedes(intents[a[0] as int], intents[a[i + 1] as int]));
                assert(b.contains(x));
                let j = choose|j: int| 0 <= j < b.len() && b[j] == x;
                assert(j != 0);
                assert(b1[j - 1] == x);
            }
            if b1.contains(x) {
                let i = choose|i: int| 0 <= i < b1.len() && b1[i] == x;
                assert(b[i + 1] == x);
                assert(status_precedes(intents[b[0] as int], intents[b[i + 1] as int]));
                assert(a.contains(x));
                let j = choose|j: int| 0 <= j < a.len() && a[j] == x;
                assert(j != 0);
                assert(a1[j - 1] == x);
            }
        }
        assert forall|k1: int, k2: int| 0 <= k1 < k2 < a1.len() implies status_precedes(
            #[trigger] intents[a1[k1] as int],
            #[trigger] intents[a1[k2] as int],
        ) by {
            assert(a1[k1] == a[k1 + 1]);
            assert(a1[k2] == a[k2 + 1]);
        }
        assert forall|k1: int, k2: int| 0 <= k1 < k2 < b1.len() implies status_precedes(
            #[trigger] intents[b1[k1] as int],
            #[trigger] intents[b1[k2] as int],
        ) by {
            assert(b1[k1] == b[k1 + 1]);
            assert(b1[k2] == b[k2 + 1]);
        }
        lemma_ordered_lists_equal(intents, a1, b1);
        assert(a.len() == b.len());
        assert forall|i: int| 0 <= i < a.len() implies a[i] == b[i] by {
            if i > 0 {
                assert(a[i] == a1[i - 1]);
                assert(b[i] == b1[i - 1]);
            }
        }
        assert(a =~= b);
    }
}

/// Resolution is deterministic: the attacks made decide the resolved list
/// completely.
pub proof fn lemma_resolution_unique(
    intents: Seq<StatusActionIntent>,
    e1: Seq<ResolvedStatusIntent>,
    e2: Seq<ResolvedStatusIntent>,
)
    requires
        is_resolution_of(intents, e1),
        is_resolution_of(intents, e2),
    ensures
        e1 == e2,
{
    let o1 = choose|o: Seq<usize>| is_resolution_order(intents, o) && e1 == #[trigger] resolved_in_order(intents, o);
    let o2 = choose|o: Seq<usize>| is_resolution_order(intents, o) && e2 == #[trigger] resolved_in_order(intents, o);
    assert forall|x: usize| o1.contains(x) <==> o2.contains(x) by {
        if o1.contains(x) {
            let k = choose|k: int| 0 <= k < o1.len() && o1[k] == x;
            assert(prevails(intents, o1[k] as int));
            assert(o2.contains(x));
        }
        if o2.contains(x) {
            let k = choose|k: int| 0 <= k < o2.len() && o2[k] == x;
            assert(prevails(intents, o2[k] as int));
            assert(o1.contains(x));
        }
    }
    lemma_ordered_lists_equal(intents, o1, o2);
}

/// Whether `s` lists attacks in strictly increasing resolution order.
pub open spec fn attacks_in_resolution_order(s: Seq<StatusActionIntent>) -> bool {
    forall|k1: int, k2: int| 0 <= k1 < k2 < s.len() ==> status_precedes(#[trigger] s[k1], #[trigger] s[k2])
}

/// The attacks that `order` lists.
pub open spec fn attacks_listed(intents: Seq<StatusActionIntent>, order: Seq<usize>) -> Seq<StatusActionIntent> {
    order.map_values(|i: usize| intents[i as int])
}

proof fn lemma_ordered_attacks_equal(a: Seq<StatusActionIntent>, b: Seq<StatusActionIntent>)
    requires
        attacks_in_resolution_order(a),
        attacks_in_resolution_order(b),
        forall|x: StatusActionIntent| a.contains(x) <==> b.contains(x),
    ensures
        a == b,
    decreases a.len(),
{
    if a.len() == 0 {
        if b.len() > 0 {
            assert(b.contains(b[0]));
        }
        assert(a =~= b);
    } else {
        assert(a.contains(a[0]));
        assert(b.contains(a[0]));
        let p = choose|p: int| 0 <= p < b.len() && b[p] == a[0];
        assert(b.contains(b[0]));
        let q = choose|q: int| 0 <= q < a.len() && a[q] == b[0];
        if p > 0 {
            assert(status_precedes(b[0], b[p]));
            if q > 0 {
                assert(status_precedes(a[0], a[q]));
            }
            assert(false);
        }
        let a1 = a.drop_first();
        let b1 = b.drop_first();
        assert forall|x: StatusActionIntent| a1.contains(x) <==> b1.contains(x) by {
            if a1.contains(x) {
                let i = choose|i: int| 0 <= i < a1.len() && a1[i] == x;
                assert(a[i + 1] == x);
                assert(status_precedes(a[0], a[i + 1]));
                assert(b.contains(x));
                let j = choose|j: int| 0 <= j < b.len() && b[j] == x;
                assert(j != 0);
                assert(b1[j - 1] == x);
            }
            if b1.contains(x) {
                let i = choose|i: int| 0 <= i < b1.len() && b1[i] == x;
                assert(b[i + 1] == x);
                assert(status_precedes(b[0], b[i + 1]));
                assert(a.contains(x));
                let j = choose|j: int| 0 <= j < a.len() && a[j] == x;
                assert(j != 0);
                assert(a1[j - 1] == x);
            }
        }
        assert forall|k1: int, k2: int| 0 <= k1 < k2 < a1.len() implies status_precedes(
            #[trigger] a1[k1],
            #[trigger] a1[k2],
        ) by {
            assert(a1[k1] == a[k1 + 1]);
            assert(a1[k2] == a[k2 + 1]);
        }
        assert forall|k1: int, k2: int| 0 <= k1 < k2 < b1.len() implies status_precedes(
            #[trigger] b1[k1],
            #[trigger] b1[k2],
        ) by {
            assert(b1[k1] == b[k1 + 1]);
            assert(b1[k2] == b[k2 + 1]);
        }
        lemma_ordered_attacks_equal(a1, b1);
        assert(a.len() == b.len());
        assert forall|i: int| 0 <= i < a.len() implies a[i] == b[i] by {
            if i > 0 {
                assert(a[i] == a1[i - 1]);
                assert(b[i] == b1[i - 1]);
            }
        }
        assert(a =~= b);
    }
}

/// Whether no two attacks share kind, source and target.
pub open spec fn distinct_attacks(intents: Seq<StatusActionIntent>) -> bool {
    forall|i: int, j: int|
        0 <= i < j < intents.len() ==> !((#[trigger] intents[i]).kind == (#[trigger] intents[j]).kind
            && intents[i].source == intents[j].source && intents[i].target == intents[j].target)
}

/// Whether attack `x` is among `intents` and no attack on its target precedes it.
pub open spec fn prevails_by_value(intents: Seq<StatusActionIntent>, x: StatusActionIntent) -> bool {
    &&& intents.contains(x)
    &&& forall|y: StatusActionIntent|
        #[trigger] intents.contains(y) && y.target == x.target ==> !status_precedes(y, x)
}

proof fn lemma_prevails_by_value(intents: Seq<StatusActionIntent>, i: int)
    requires
        distinct_attacks(intents),
        0 <= i < intents.len(),
    ensures
        prevails(intents, i) == prevails_by_value(intents, intents[i]),
{
    assert(intents.contains(intents[i]));
    if prevails(intents, i) {
        assert forall|y: StatusActionIntent|
            #[trigger] intents.contains(y) && y.target == intents[i].target implies !status_precedes(
            y,
            intents[i],
        ) by {
            let j = choose|j: int| 0 <= j < intents.len() && intents[j] == y;
            assert(intents[j].target == intents[i].target);
        }
    }
    if prevails_by_value(intents, intents[i]) {
        assert forall|j: int|
            0 <= j < intents.len() && #[trigger] intents[j].target == intents[i].target implies {
            &&& !status_precedes(intents[j], intents[i])
            &&& (j < i ==> status_precedes(intents[i], intents[j]))
        } by {
            assert(intents.contains(intents[j]));
        }
    }
}

proof fn lemma_listed_attacks(intents: Seq<StatusActionIntent>, order: Seq<usize>)
    requires
        distinct_attacks(intents),
        intents.len() <= usize::MAX,
        is_resolution_order(intents, order),
    ensures
        attacks_in_resolution_order(attacks_listed(intents, order)),
        forall|x: StatusActionIntent|
            attacks_listed(intents, order).contains(x) <==> prevails_by_value(intents, x),
{
    let listed = attacks_listed(intents, order);
    assert forall|k1: int, k2: int| 0 <= k1 < k2 < listed.len() implies status_precedes(
        #[trigger] listed[k1],
        #[trigger] listed[k2],
    ) by {
        assert(status_precedes(intents[order[k1] as int], intents[order[k2] as int]));
    }
    assert forall|x: StatusActionIntent| listed.contains(x) <==> prevails_by_value(intents, x) by {
        if listed.contains(x) {
            let k = choose|k: int| 0 <= k < listed.len() && listed[k] == x;
            assert(prevails(intents, order[k] as int));
            lemma_prevails_by_value(intents, order[k] as int);
        }
        if prevails_by_value(intents, x) {
            let i = choose|i: int| 0 <= i < intents.len() && intents[i] == x;
            lemma_prevails_by_value(intents, i);
            let u = i as usize;
            assert(u as int == i);
            assert(prevails(intents, u as int));
            assert(order.contains(u));
            let k = choose|k: int| 0 <= k < order.len() && order[k] == u;
            assert(listed[k] == intents[order[k] as int]);
            assert(listed[k] == x);
        }
    }
}

proof fn lemma_distinct_attacks_permuted(s1: Seq<StatusActionIntent>, s2: Seq<StatusActionIntent>)
    requires
        distinct_attacks(s1),
        s1.to_multiset() == s2.to_multiset(),
    ensures
        distinct_attacks(s2),
{
    broadcast use vstd::multiset::group_multiset_axioms;

    s1.to_multiset_ensures();
    s2.to_multiset_ensures();
    assert forall|i: int, j: int| 0 <= i < j < s2.len() implies !((#[trigger] s2[i]).kind == (
    #[trigger] s2[j]).kind && s2[i].source == s2[j].source && s2[i].target == s2[j].target) by {
        if s2[i].kind == s2[j].kind && s2[i].source == s2[j].source && s2[i].target == s2[j].target {
            assert(s2.contains(s2[i]));
            assert(s2.to_multiset().count(s2[i]) > 0);
            assert(s1.contains(s2[i]));
            let p = choose|p: int| 0 <= p < s1.len() && s1[p] == s2[i];
            if s2[i] != s2[j] {
                assert(s2.contains(s2[j]));
                assert(s2.to_multiset().count(s2[j]) > 0);
                assert(s1.contains(s2[j]));
                let q = choose|q: int| 0 <= q < s1.len() && s1[q] == s2[j];
                if p < q {
                    assert(!(s1[p].kind == s1[q].kind && s1[p].source == s1[q].source && s1[p].target
                        == s1[q].target));
                } else {
                    assert(!(s1[q].kind == s1[p].kind && s1[q].source == s1[p].source && s1[q].target
                        == s1[p].target));
                }
            } else {
                let v = s2[i];
                let r2 = s2.remove(i);
                r2.to_multiset_ensures();
                assert(r2[j - 1] == v);
                assert(r2.contains(v));
                assert(r2.to_multiset().count(v) > 0);
                assert(s2.to_multiset().remove(v).count(v) > 0);
                let r1 = s1.remove(p);
                r1.to_multiset_ensures();
                assert(r1.to_multiset() == s1.to_multiset().remove(v));
                assert(r1.to_multiset().count(v) > 0);
                assert(r1.contains(v));
                let q1 = choose|q: int| 0 <= q < r1.len() && r1[q] == v;
                let q = if q1 < p { q1 } else { q1 + 1 };
                assert(s1[q] == v);
                if p < q {
                    assert(!(s1[p].kind == s1[q].kind && s1[p].source == s1[q].source && s1[p].target
                        == s1[q].target));
                } else {
                    assert(!(s1[q].kind == s1[p].kind && s1[q].source == s1[p].source && s1[q].target
                        == s1[p].target));
                }
            }
        }
    }
}

/// When no two attacks share kind, source and target, the order in which
/// they were made does not matter: any permutation of them resolves to the
/// same list, in the same order.
pub proof fn lemma_resolution_permutation_invariant(
    s1: Seq<StatusActionIntent>,
    s2: Seq<StatusActionIntent>,
    e1: Seq<ResolvedStatusIntent>,
    e2: Seq<ResolvedStatusIntent>,
)
    requires
        distinct_attacks(s1),
        s1.len() <= usize::MAX,
        s1.to_multiset() == s2.to_multiset(),
        is_resolution_of(s1, e1),
        is_resolution_of(s2, e2),
    ensures
        e1 == e2,
{
    lemma_distinct_attacks_permuted(s1, s2);
    s1.to_multiset_ensures();
    s2.to_multiset_ensures();
    let o1 = choose|o: Seq<usize>| is_resolution_order(s1, o) && e1 == #[trigger] resolved_in_order(s1, o);
    let o2 = choose|o: Seq<usize>| is_resolution_order(s2, o) && e2 == #[trigger] resolved_in_order(s2, o);
    lemma_listed_attacks(s1, o1);
    lemma_listed_attacks(s2, o2);
    let l1 = attacks_listed(s1, o1);
    let l2 = attacks_listed(s2, o2);
    assert forall|x: StatusActionIntent| l1.contains(x) <==> l2.contains(x) by {
        assert(s1.contains(x) <==> s1.to_multiset().count(x) > 0);
        assert(s2.contains(x) <==> s2.to_multiset().count(x) > 0);
        assert(prevails_by_value(s1, x) == prevails_by_value(s2, x)) by {
            assert forall|y: StatusActionIntent|
                #![trigger s1.contains(y)]
                #![trigger s2.contains(y)]
                s1.contains(y) <==> s2.contains(y) by {
                assert(s1.contains(y) <==> s1.to_multiset().count(y) > 0);
                assert(s2.contains(y) <==> s2.to_multiset().count(y) > 0);
            }
        }
    }
    lemma_ordered_attacks_equal(l1, l2);
    assert(e1 =~= l1.map_values(|x: StatusActionIntent| resolved(x)));
    assert(e2 =~= l2.map_values(|x: StatusActionIntent| resolved(x)));
}

} // verus!
