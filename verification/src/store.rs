//! The entity store: an ordered population, the sole mutator of entity
//! state. It levels entities in bulk, pairs eligible parents into offspring,
//! sorts in place, and moves the population through the text format.

use crate::entity::{
    can_pair, can_pair_spec, entity_eq, gain_fits, trained, Entity, Gender,
};
use crate::sorting::{sort_entities, sort_spec, SortOrder};
use vstd::prelude::*;
use vstd::string::*;

verus! {

/// The outcome of a load: the source was missing, the store was not empty
/// and refused to load, or the count of entities imported.
#[derive(Clone, Copy, PartialEq, Eq, Structural, Debug)]
pub enum LoadOutcome {
    NotFound,
    NotEmpty,
    Loaded(usize),
}

/// The fixed candidate names an offspring's name is drawn from.
pub open spec fn offspring_names() -> Seq<Seq<char>> {
    seq![
        "Pikachu"@,
        "Bulbizarre"@,
        "Salamèche"@,
        "Carapuce"@,
        "Évoli"@,
        "Miaouss"@,
        "Rondoudou"@,
        "Psykokwak"@,
        "Rattata"@,
        "Grolet"@,
        "Goupix"@,
        "Nosferapti"@,
    ]
}

/// What pairing promises of the offspring: level 1, no experience, the
/// first parent's kind, and a name drawn from the fixed candidate list.
pub open spec fn offspring_ok(b: Entity, first: Entity) -> bool {
    &&& b.level == 1
    &&& b.experience == 0
    &&& b.kind == first.kind
    &&& exists|i: int| 0 <= i < offspring_names().len() && b.name@ == offspring_names()[i]
}

/// The ordered population.
pub struct EntityStore {
    pub entities: Vec<Entity>,
}

impl View for EntityStore {
    type V = Seq<Entity>;

    open spec fn view(&self) -> Seq<Entity> {
        self.entities@
    }
}

impl EntityStore {
    /// An empty store.
    pub fn new() -> (r: EntityStore)
        ensures
            r@ == Seq::<Entity>::empty(),
    {
        EntityStore { entities: Vec::new() }
    }

    /// Appends one entity; always succeeds.
    pub fn add(&mut self, e: Entity)
        ensures
            final(self)@ == old(self)@.push(e),
    {
        self.entities.push(e);
    }

    pub fn len(&self) -> (n: usize)
        ensures
            n == self@.len(),
    {
        self.entities.len()
    }

    /// Whether the store holds no entities; an empty store is a state the
    /// caller must render distinctly.
    pub fn is_empty(&self) -> (r: bool)
        ensures
            r == (self@.len() == 0),
    {
        self.entities.is_empty()
    }

    /// A snapshot of the population, in order, for display.
    pub fn list(&self) -> (r: Vec<Entity>)
        ensures
            r@.len() == self@.len(),
            forall|i: int| 0 <= i < r@.len() ==> entity_eq(#[trigger] r@[i], self@[i]),
    {
        let mut r: Vec<Entity> = Vec::new();
        let mut i: usize = 0;
        while i < self.entities.len()
            invariant
                i <= self@.len(),
                r@.len() == i,
                forall|j: int| 0 <= j < i ==> entity_eq(#[trigger] r@[j], self@[j]),
            decreases self@.len() - i,
        {
            r.push(self.entities[i].duplicate());
            i = i + 1;
        }
        r
    }

    /// The first entity carrying `id`, or nothing when no entity does.
    pub fn find_by_id(&self, id: u128) -> (r: Option<Entity>)
        ensures
            match r {
                Some(e) => exists|i: int|
                    0 <= i < self@.len() && #[trigger] self@[i].id == id && entity_eq(e, self@[i])
                        && forall|j: int| 0 <= j < i ==> self@[j].id != id,
                None => forall|i: int| 0 <= i < self@.len() ==> #[trigger] self@[i].id != id,
            },
    {
        let mut i: usize = 0;
        while i < self.entities.len()
            invariant
                i <= self@.len(),
                forall|j: int| 0 <= j < i ==> #[trigger] self@[j].id != id,
            decreases self@.len() - i,
        {
            if self.entities[i].id == id {
                let e = self.entities[i].duplicate();
                return Some(e);
            }
            i = i + 1;
        }
        None
    }

    /// Adds `amount` experience to every entity, settling each one's level.
    /// Reports whether there was anything to train: `false` on an empty
    /// store, which it leaves unchanged.
    pub fn train_all(&mut self, amount: u32) -> (r: bool)
        requires
            forall|i: int|
                0 <= i < old(self)@.len() ==> gain_fits(#[trigger] old(self)@[i], amount),
        ensures
            final(self)@.len() == old(self)@.len(),
            forall|i: int|
                0 <= i < old(self)@.len() ==> final(self)@[i] == trained(
                    #[trigger] old(self)@[i],
                    amount,
                ),
            r == (old(self)@.len() > 0),
    {
        if self.entities.is_empty() {
            return false;
        }
        let n = self.entities.len();
        let mut i: usize = 0;
        while i < n
            invariant
                i <= n,
                n == old(self)@.len(),
                self@.len() == n,
                forall|j: int|
                    0 <= j < old(self)@.len() ==> gain_fits(#[trigger] old(self)@[j], amount),
                forall|j: int| i <= j < n ==> #[trigger] self@[j] == old(self)@[j],
                forall|j: int|
                    0 <= j < i ==> #[trigger] self@[j] == trained(old(self)@[j], amount),
            decreases n - i,
        {
            self.entities[i].gain_experience(amount);
            i = i + 1;
        }
        true
    }

    /// Pairs two parent records. When they are ineligible the store is left
    /// unchanged and nothing is reported; when they are eligible one new
    /// entity is appended and reported back: level 1, no experience, the
    /// first parent's kind, a random gender, and a random name from the
    /// fixed candidate list. Neither parent is consumed or changed.
    pub fn pair(&mut self, first: &Entity, second: &Entity) -> (r: Option<Entity>)
        ensures
            !can_pair_spec(*first, *second) ==> r is None && final(self)@ == old(self)@,
            can_pair_spec(*first, *second) ==> match r {
                Some(b) => {
                    &&& final(self)@.len() == old(self)@.len() + 1
                    &&& final(self)@.take(old(self)@.len() as int) == old(self)@
                    &&& entity_eq(final(self)@.last(), b)
                    &&& offspring_ok(b, *first)
                },
                None => false,
            },
    {
        if !can_pair(first, second) {
            return None;
        }
        let gender = if crate::chance::coin() {
            Gender::Male
        } else {
            Gender::Femelle
        };
        let idx = crate::chance::pick_index(12);
        let name = offspring_name(idx);
        let baby = Entity::new(name, first.kind, gender);
        let copy = baby.duplicate();
        self.entities.push(copy);
        proof {
            assert(final(self)@.take(old(self)@.len() as int) =~= old(self)@);
            assert(baby.name@ == offspring_names()[idx as int]);
        }
        Some(baby)
    }

    /// Sorts the population by level, highest first; entities of equal level
    /// keep their relative order.
    pub fn sort_by_level_desc(&mut self)
        ensures
            final(self)@ == sort_spec(old(self)@, SortOrder::LevelDesc),
    {
        sort_entities(&mut self.entities, SortOrder::LevelDesc);
    }

    /// Sorts the population by the alphabetical order of the kinds' text
    /// forms; entities of equal kind keep their relative order.
    pub fn sort_by_kind_name(&mut self)
        ensures
            final(self)@ == sort_spec(old(self)@, SortOrder::KindName),
    {
        sort_entities(&mut self.entities, SortOrder::KindName);
    }

    /// The persisted document of the population (see `codec::encode`).
    pub fn encode(&self) -> (r: String)
        ensures
            r@ == crate::codec::encode_text(self@),
            forall|i: int|
                0 <= i < self@.len() ==> crate::ids::id_round_trips(#[trigger] self@[i].id),
    {
        crate::codec::encode(&self.entities)
    }

    /// Loads a population from a document's text, `None` standing for a
    /// source that does not exist. A missing source or a non-empty store is
    /// reported as such and leaves the store untouched; otherwise the
    /// decoded entities replace the store's contents and their count is
    /// reported.
    pub fn load(&mut self, content: Option<&str>) -> (r: LoadOutcome)
        ensures
            content is None ==> r == LoadOutcome::NotFound && final(self)@ == old(self)@,
            content is Some && old(self)@.len() > 0 ==> r == LoadOutcome::NotEmpty
                && final(self)@ == old(self)@,
            content matches Some(t) ==> old(self)@.len() == 0 ==> {
                &&& r == LoadOutcome::Loaded(final(self)@.len() as usize)
                &&& final(self)@.len() == crate::codec::spec_records(t@).len()
                &&& forall|i: int|
                    0 <= i < final(self)@.len() ==> crate::codec::entity_matches(
                        #[trigger] final(self)@[i],
                        crate::codec::spec_records(t@)[i],
                    )
            },
    {
        match content {
            None => LoadOutcome::NotFound,
            Some(t) => {
                if self.entities.len() > 0 {
                    LoadOutcome::NotEmpty
                } else {
                    let es = crate::codec::decode(t);
                    let n = es.len();
                    self.entities = es;
                    LoadOutcome::Loaded(n)
                }
            },
        }
    }
}

/// The candidate offspring name at `idx`.
fn offspring_name(idx: usize) -> (r: String)
    requires
        idx < 12,
    ensures
        r@ == offspring_names()[idx as int],
{
    match idx {
        0 => String::from_str("Pikachu"),
        1 => String::from_str("Bulbizarre"),
        2 => String::from_str("Salamèche"),
        3 => String::from_str("Carapuce"),
        4 => String::from_str("Évoli"),
        5 => String::from_str("Miaouss"),
        6 => String::from_str("Rondoudou"),
        7 => String::from_str("Psykokwak"),
        8 => String::from_str("Rattata"),
        9 => String::from_str("Grolet"),
        10 => String::from_str("Goupix"),
        _ => String::from_str("Nosferapti"),
    }
}

} // verus!
