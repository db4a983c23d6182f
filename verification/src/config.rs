use vstd::prelude::*;

verus! {

/// The basis-point value of a multiplier of one.
pub const BASIS_POINTS_ONE: u32 = 10_000;

/// Combat settings of the world.
#[derive(Clone, Copy, Debug)]
pub struct CombatConfig {
    /// Whether units of different players may damage each other.
    pub pvp_enabled: bool,
    /// Whether a unit may damage a unit with the same owner (or two unowned units each other).
    pub friendly_fire: bool,
    /// Multiplier applied to attack damage, in basis points.
    pub damage_multiplier_bp: u32,
}

impl Default for CombatConfig {
    fn default() -> (config: Self)
        ensures
            config.pvp_enabled,
            !config.friendly_fire,
            config.damage_multiplier_bp == BASIS_POINTS_ONE,
    {
        CombatConfig { pvp_enabled: true, friendly_fire: false, damage_multiplier_bp: BASIS_POINTS_ONE }
    }
}

/// The configuration that a world starts with.
pub open spec fn default_config() -> CombatConfig {
    CombatConfig { pvp_enabled: true, friendly_fire: false, damage_multiplier_bp: BASIS_POINTS_ONE }
}

/// `amount` times `multiplier_bp / 10_000`, rounded down and capped at `u32::MAX`.
pub open spec fn scaled(amount: u32, multiplier_bp: u32) -> u32 {
    let exact = (amount as int) * (multiplier_bp as int) / (BASIS_POINTS_ONE as int);
    if exact > u32::MAX as int {
        u32::MAX
    } else {
        exact as u32
    }
}

/// Applies a basis-point multiplier to an amount of damage.
pub fn scale(amount: u32, multiplier_bp: u32) -> (result: u32)
    ensures
        result == scaled(amount, multiplier_bp),
{
    assert((amount as int) * (multiplier_bp as int) <= (u32::MAX as int) * (u32::MAX as int))
        by (nonlinear_arith);
    let product: u64 = (amount as u64) * (multiplier_bp as u64);
    let quotient: u64 = product / (BASIS_POINTS_ONE as u64);
    if quotient > (u32::MAX as u64) {
        u32::MAX
    } else {
        quotient as u32
    }
}

/// Whether a unit owned by `source` may damage a unit owned by `target`.
pub open spec fn damage_allowed(
    source: Option<u64>,
    target: Option<u64>,
    config: CombatConfig,
) -> bool {
    if source is Some && target is Some && source != target {
        config.pvp_enabled
    } else {
        source != target || config.friendly_fire
    }
}

/// Decides whether a unit owned by `source` may damage a unit owned by `target`.
pub fn can_damage(source: Option<u64>, target: Option<u64>, config: &CombatConfig) -> (allowed: bool)
    ensures
        allowed == damage_allowed(source, target, *config),
{
    let same = match (source, target) {
        (Some(a), Some(b)) => a == b,
        (None, None) => true,
        _ => false,
    };
    if source.is_some() && target.is_some() && !same {
        return config.pvp_enabled;
    }
    !same || config.friendly_fire
}

/// Owners are compared alike in either direction: whether `a` may damage `b`
/// is whether `b` may damage `a`.
pub proof fn lemma_damage_allowed_symmetric(a: Option<u64>, b: Option<u64>, config: CombatConfig)
    ensures
        damage_allowed(a, b, config) == damage_allowed(b, a, config),
{
}

/// Under the default configuration two owned units may damage each other
/// exactly when they belong to different players: friendly fire is blocked
/// and fights between players are allowed.
pub proof fn lemma_default_blocks_friendly_fire(a: u64, b: u64)
    ensures
        damage_allowed(Some(a), Some(b), default_config()) == (a != b),
{
}

/// Two units with the same owner, two unowned units included, may damage
/// each other exactly when friendly fire is on.
pub proof fn lemma_same_owner_needs_friendly_fire(owner: Option<u64>, config: CombatConfig)
    ensures
        damage_allowed(owner, owner, config) == config.friendly_fire,
{
}

/// Units of two different players may damage each other exactly when PvP
/// is enabled, whatever friendly fire says.
pub proof fn lemma_rival_players_need_pvp(a: u64, b: u64, config: CombatConfig)
    requires
        a != b,
    ensures
        damage_allowed(Some(a), Some(b), config) == config.pvp_enabled,
{
}

/// An owned and an unowned unit may always damage each other, whatever the
/// settings.
pub proof fn lemma_owned_against_unowned(a: u64, config: CombatConfig)
    ensures
        damage_allowed(Some(a), None, config),
        damage_allowed(None, Some(a), config),
{
}

/// Scaling is multiplication by `multiplier_bp / 10_000` rounded down: the
/// result times 10_000 is at most the product and less than 10_000 more,
/// unless the result would exceed `u32::MAX`, where it saturates.
pub proof fn lemma_scale_exact(amount: u32, multiplier_bp: u32)
    ensures
        (amount as int) * (multiplier_bp as int) < (u32::MAX as int + 1) * 10_000 ==> {
            &&& (scaled(amount, multiplier_bp) as int) * 10_000 <= (amount as int) * (multiplier_bp as int)
            &&& (amount as int) * (multiplier_bp as int) < (scaled(amount, multiplier_bp) as int) * 10_000
                + 10_000
        },
        (amount as int) * (multiplier_bp as int) >= (u32::MAX as int + 1) * 10_000 ==> scaled(
            amount,
            multiplier_bp,
        ) == u32::MAX,
{
    let p = (amount as int) * (multiplier_bp as int);
    assert((amount as int) * (multiplier_bp as int) >= 0) by (nonlinear_arith);
    vstd::arithmetic::div_mod::lemma_fundamental_div_mod(p, 10_000);
    assert(p / 10_000 * 10_000 == 10_000 * (p / 10_000)) by (nonlinear_arith);
    if p >= (u32::MAX as int + 1) * 10_000 {
        assert(p / 10_000 >= u32::MAX as int + 1);
    }
}

/// A multiplier of one leaves every amount unchanged.
pub proof fn lemma_scale_identity(amount: u32)
    ensures
        scaled(amount, BASIS_POINTS_ONE) == amount,
{
}

/// A larger amount, or a larger multiplier, never yields less damage.
pub proof fn lemma_scale_monotonic(a1: u32, a2: u32, m1: u32, m2: u32)
    requires
        a1 <= a2,
        m1 <= m2,
    ensures
        scaled(a1, m1) <= scaled(a2, m2),
{
    assert((a1 as int) * (m1 as int) <= (a2 as int) * (m2 as int)) by (nonlinear_arith)
        requires
            a1 <= a2,
            m1 <= m2,
    ;
    vstd::arithmetic::div_mod::lemma_div_is_ordered(
        (a1 as int) * (m1 as int),
        (a2 as int) * (m2 as int),
        BASIS_POINTS_ONE as int,
    );
}

} // verus!
