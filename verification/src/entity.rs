//! The entity record itself: its categories, its leveling rule, and the
//! eligibility rule for pairing.

use vstd::prelude::*;
use vstd::string::*;

verus! {

/// The closed set of elemental categories. The variant names are also the
/// symbolic names used by the persisted text format; `Feu` is the default
/// category that unrecognized text falls back to.
#[derive(Clone, Copy, PartialEq, Eq, Structural, Debug)]
pub enum Kind {
    Feu,
    Eau,
    Plante,
    Electrik,
    Tenebre,
}

/// The two gender values. `Male` is the default that unrecognized text falls
/// back to.
#[derive(Clone, Copy, PartialEq, Eq, Structural, Debug)]
pub enum Gender {
    Male,
    Femelle,
}

/// One creature record. `id` is assigned at creation and never changed;
/// `level` starts at 1 and only grows; `experience` is progress toward the
/// next level and stays below 100 once a leveling operation has settled.
#[derive(Debug)]
pub struct Entity {
    pub id: u128,
    pub name: String,
    pub level: u32,
    pub kind: Kind,
    pub experience: u32,
    pub gender: Gender,
}

/// The canonical text form of a kind, as it appears in the persisted format.
pub open spec fn kind_text(k: Kind) -> Seq<char> {
    match k {
        Kind::Feu => seq!['F', 'e', 'u'],
        Kind::Eau => seq!['E', 'a', 'u'],
        Kind::Plante => seq!['P', 'l', 'a', 'n', 't', 'e'],
        Kind::Electrik => seq!['E', 'l', 'e', 'c', 't', 'r', 'i', 'k'],
        Kind::Tenebre => seq!['T', 'e', 'n', 'e', 'b', 'r', 'e'],
    }
}

/// The canonical text form of a gender, as it appears in the persisted format.
pub open spec fn gender_text(g: Gender) -> Seq<char> {
    match g {
        Gender::Male => seq!['M', 'a', 'l', 'e'],
        Gender::Femelle => seq!['F', 'e', 'm', 'e', 'l', 'l', 'e'],
    }
}

/// Field-wise equality of two entity records (names compare by their text).
pub open spec fn entity_eq(a: Entity, b: Entity) -> bool {
    &&& a.id == b.id
    &&& a.name@ == b.name@
    &&& a.level == b.level
    &&& a.kind == b.kind
    &&& a.experience == b.experience
    &&& a.gender == b.gender
}

/// The record that results from adding `amount` experience to `e` and letting
/// the level roll-over settle: every full 100 points becomes one level.
pub open spec fn trained(e: Entity, amount: u32) -> Entity {
    Entity {
        id: e.id,
        name: e.name,
        level: (e.level + (e.experience + amount) / 100) as u32,
        kind: e.kind,
        experience: ((e.experience + amount) % 100) as u32,
        gender: e.gender,
    }
}

/// The machine limit under which `gain_experience` cannot overflow its
/// 32-bit counters.
pub open spec fn gain_fits(e: Entity, amount: u32) -> bool {
    &&& e.experience + amount <= u32::MAX
    &&& e.level + (e.experience + amount) / 100 <= u32::MAX
}

/// Eligibility for pairing: same kind, different genders, both at level 5 or
/// above.
pub open spec fn can_pair_spec(a: Entity, b: Entity) -> bool {
    &&& a.kind == b.kind
    &&& a.gender != b.gender
    &&& a.level >= 5
    &&& b.level >= 5
}

/// After experience is gained the counter has settled below 100, and the
/// level has grown by exactly one per full 100 points of the total.
pub proof fn lemma_trained_bounds(e: Entity, amount: u32)
    requires
        gain_fits(e, amount),
    ensures
        0 <= trained(e, amount).experience < 100,
        trained(e, amount).level == e.level + (e.experience + amount) / 100,
        trained(e, amount).level >= e.level,
        trained(e, amount).id == e.id,
        trained(e, amount).name == e.name,
        trained(e, amount).kind == e.kind,
        trained(e, amount).gender == e.gender,
{
}

/// Eligibility is symmetric in its two arguments: every conjunct of
/// `can_pair_spec` is invariant under swapping them.
pub proof fn lemma_can_pair_symmetric(a: Entity, b: Entity)
    ensures
        can_pair_spec(a, b) == can_pair_spec(b, a),
{
}

/// A pair with mismatched kinds, equal genders, or a parent below level 5 is
/// never eligible.
pub proof fn lemma_ineligible(a: Entity, b: Entity)
    requires
        a.kind != b.kind || a.gender == b.gender || a.level < 5 || b.level < 5,
    ensures
        !can_pair_spec(a, b),
{
}

impl Entity {
    /// A freshly created record: level 1, no experience, a new random id.
    pub fn new(name: String, kind: Kind, gender: Gender) -> (r: Entity)
        ensures
            r.name == name,
            r.level == 1,
            r.experience == 0,
            r.kind == kind,
            r.gender == gender,
    {
        Entity { id: crate::ids::fresh_id(), name, level: 1, kind, experience: 0, gender }
    }

    /// Adds `amount` experience, then converts every full 100 points into one
    /// level. Never fails; `amount == 0` leaves the record unchanged.
    pub fn gain_experience(&mut self, amount: u32)
        requires
            gain_fits(*old(self), amount),
        ensures
            *final(self) == trained(*old(self), amount),
    {
        let total: u32 = self.experience + amount;
        self.experience = total;
        while self.experience >= 100
            invariant
                self.id == old(self).id,
                self.name == old(self).name,
                self.kind == old(self).kind,
                self.gender == old(self).gender,
                self.level >= old(self).level,
                self.level + self.experience / 100 <= u32::MAX,
                old(self).level * 100 + total == self.level * 100 + self.experience,
            decreases self.experience,
        {
            self.level = self.level + 1;
            self.experience = self.experience - 100;
        }
        proof {
            vstd::arithmetic::div_mod::lemma_fundamental_div_mod_converse(
                total as int,
                100,
                self.level - old(self).level,
                self.experience as int,
            );
        }
    }

    /// A fresh record with the same field values (the name text is copied).
    pub fn duplicate(&self) -> (r: Entity)
        ensures
            entity_eq(r, *self),
    {
        Entity {
            id: self.id,
            name: String::from_str(self.name.as_str()),
            level: self.level,
            kind: self.kind,
            experience: self.experience,
            gender: self.gender,
        }
    }
}

/// The canonical text of a kind, for display and for the persisted format.
pub fn kind_label(k: Kind) -> (r: String)
    ensures
        r@ == kind_text(k),
{
    match k {
        Kind::Feu => {
            let s = String::from_str("Feu");
            proof {
                reveal_strlit("Feu");
                assert(s@ =~= kind_text(Kind::Feu));
            }
            s
        },
        Kind::Eau => {
            let s = String::from_str("Eau");
            proof {
                reveal_strlit("Eau");
                assert(s@ =~= kind_text(Kind::Eau));
            }
            s
        },
        Kind::Plante => {
            let s = String::from_str("Plante");
            proof {
                reveal_strlit("Plante");
                assert(s@ =~= kind_text(Kind::Plante));
            }
            s
        },
        Kind::Electrik => {
            let s = String::from_str("Electrik");
            proof {
                reveal_strlit("Electrik");
                assert(s@ =~= kind_text(Kind::Electrik));
            }
            s
        },
        Kind::Tenebre => {
            let s = String::from_str("Tenebre");
            proof {
                reveal_strlit("Tenebre");
                assert(s@ =~= kind_text(Kind::Tenebre));
            }
            s
        },
    }
}

/// The canonical text of a gender, for display and for the persisted format.
pub fn gender_label(g: Gender) -> (r: String)
    ensures
        r@ == gender_text(g),
{
    match g {
        Gender::Male => {
            let s = String::from_str("Male");
            proof {
                reveal_strlit("Male");
                assert(s@ =~= gender_text(Gender::Male));
            }
            s
        },
        Gender::Femelle => {
            let s = String::from_str("Femelle");
            proof {
                reveal_strlit("Femelle");
                assert(s@ =~= gender_text(Gender::Femelle));
            }
            s
        },
    }
}

/// Whether two records may be paired (see `can_pair_spec`).
pub fn can_pair(a: &Entity, b: &Entity) -> (r: bool)
    ensures
        r == can_pair_spec(*a, *b),
{
    a.kind == b.kind && a.gender != b.gender && a.level >= 5 && b.level >= 5
}

} // verus!
