use vstd::prelude::*;

verus! {

/// The kinds of damage that combat-core registers and resolves.
#[derive(Clone, Copy, Debug, PartialEq, Eq, Structural, Hash)]
pub enum DamageType {
    Kinetic,
    Thermal,
    EMP,
    Sonic,
    Corrosive,
    Psionic,
}

impl DamageType {
    /// The name that combat-core gives a damage type when no other names are known.
    pub open spec fn name(self) -> Seq<char> {
        match self {
            DamageType::Kinetic => "Kinetic"@,
            DamageType::Thermal => "Thermal"@,
            DamageType::EMP => "EMP"@,
            DamageType::Sonic => "Sonic"@,
            DamageType::Corrosive => "Corrosive"@,
            DamageType::Psionic => "Psionic"@,
        }
    }

    pub fn as_str(&self) -> (s: &'static str)
        ensures
            s@ == self.name(),
    {
        match self {
            DamageType::Kinetic => "Kinetic",
            DamageType::Thermal => "Thermal",
            DamageType::EMP => "EMP",
            DamageType::Sonic => "Sonic",
            DamageType::Corrosive => "Corrosive",
            DamageType::Psionic => "Psionic",
        }
    }
}

/// The names by which the world writes each damage type in pending damage
/// requests.
#[derive(Debug)]
pub struct DamageTypeNames {
    pub kinetic: String,
    pub thermal: String,
    pub emp: String,
    pub sonic: String,
    pub corrosive: String,
    pub psionic: String,
}

impl DamageTypeNames {
    /// The name of `damage_type` in this table.
    pub open spec fn name_of(self, damage_type: DamageType) -> Seq<char> {
        match damage_type {
            DamageType::Kinetic => self.kinetic@,
            DamageType::Thermal => self.thermal@,
            DamageType::EMP => self.emp@,
            DamageType::Sonic => self.sonic@,
            DamageType::Corrosive => self.corrosive@,
            DamageType::Psionic => self.psionic@,
        }
    }

    /// The name of `damage_type`.
    pub fn name(&self, damage_type: DamageType) -> (name: &String)
        ensures
            name@ == self.name_of(damage_type),
    {
        match damage_type {
            DamageType::Kinetic => &self.kinetic,
            DamageType::Thermal => &self.thermal,
            DamageType::EMP => &self.emp,
            DamageType::Sonic => &self.sonic,
            DamageType::Corrosive => &self.corrosive,
            DamageType::Psionic => &self.psionic,
        }
    }

    /// The table of combat-core's own names (`DamageType::as_str`).
    pub fn standard() -> (names: Self)
        ensures
            forall|t: DamageType| #[trigger] names.name_of(t) == t.name(),
    {
        DamageTypeNames {
            kinetic: DamageType::Kinetic.as_str().to_owned(),
            thermal: DamageType::Thermal.as_str().to_owned(),
            emp: DamageType::EMP.as_str().to_owned(),
            sonic: DamageType::Sonic.as_str().to_owned(),
            corrosive: DamageType::Corrosive.as_str().to_owned(),
            psionic: DamageType::Psionic.as_str().to_owned(),
        }
    }
}

/// The damage type that `name` names in `names`: the first in the order
/// Kinetic, Thermal, EMP, Sonic, Corrosive, Psionic whose name it is.
pub open spec fn damage_type_named(names: DamageTypeNames, name: Seq<char>) -> Option<DamageType> {
    if name == names.name_of(DamageType::Kinetic) {
        Some(DamageType::Kinetic)
    } else if name == names.name_of(DamageType::Thermal) {
        Some(DamageType::Thermal)
    } else if name == names.name_of(DamageType::EMP) {
        Some(DamageType::EMP)
    } else if name == names.name_of(DamageType::Sonic) {
        Some(DamageType::Sonic)
    } else if name == names.name_of(DamageType::Corrosive) {
        Some(DamageType::Corrosive)
    } else if name == names.name_of(DamageType::Psionic) {
        Some(DamageType::Psionic)
    } else {
        None
    }
}

/// The damage type whose name in `names` is `name`, if any.
pub fn damage_type_from_name(names: &DamageTypeNames, name: &str) -> (found: Option<DamageType>)
    ensures
        found == damage_type_named(*names, name@),
{
    let owned = name.to_owned();
    let candidates = [
        DamageType::Kinetic,
        DamageType::Thermal,
        DamageType::EMP,
        DamageType::Sonic,
        DamageType::Corrosive,
        DamageType::Psionic,
    ];
    let mut i: usize = 0;
    while i < 6
        invariant
            0 <= i <= 6,
            owned@ == name@,
            candidates@ == seq![
                DamageType::Kinetic,
                DamageType::Thermal,
                DamageType::EMP,
                DamageType::Sonic,
                DamageType::Corrosive,
                DamageType::Psionic,
            ],
            forall|j: int| 0 <= j < i ==> name@ != names.name_of(#[trigger] candidates@[j]),
        decreases 6 - i,
    {
        let candidate = candidates[i];
        if owned == *names.name(candidate) {
            return Some(candidate);
        }
        i = i + 1;
    }
    None
}

/// A name is found exactly when some damage type has it in the table, and
/// what is found has that name; when the table names every type
/// differently, the type found is the one so named.
pub proof fn lemma_name_lookup(names: DamageTypeNames, name: Seq<char>, t: DamageType)
    ensures
        damage_type_named(names, name) matches Some(found) ==> names.name_of(found) == name,
        names.name_of(t) == name ==> damage_type_named(names, name) is Some,
        (forall|a: DamageType, b: DamageType| a != b ==> names.name_of(a) != names.name_of(b))
            && names.name_of(t) == name ==> damage_type_named(names, name) == Some(t),
{
    if (forall|a: DamageType, b: DamageType| a != b ==> names.name_of(a) != names.name_of(b))
        && names.name_of(t) == name {
        assert(names.name_of(DamageType::Kinetic) != names.name_of(DamageType::Thermal));
        match damage_type_named(names, name) {
            Some(found) => {
                if found != t {
                    assert(names.name_of(found) != names.name_of(t));
                }
            },
            None => {},
        }
    }
}

/// The body parts that give a unit its combat abilities.
#[derive(Clone, Copy, Debug, PartialEq, Eq, Structural, Hash)]
pub enum BodyPart {
    Attack,
    RangedAttack,
    Heal,
    Tough,
}

/// A kind of special attack, given by its rank in the engine's declaration
/// order of kinds: the order in which kinds compare.
#[derive(Clone, Copy, Debug, PartialEq, Eq, Structural, Hash, PartialOrd, Ord)]
pub struct SpecialAttackKind {
    pub rank: u32,
}

} // verus!
