use vstd::prelude::*;
use vstd::pervasive::VecAdditionalExecFns;

verus! {

/// A tag an item definition may carry; a recipe input can ask for any item
/// bearing a tag instead of one exact definition.
#[derive(Clone, Copy, PartialEq, Eq, Structural, Debug)]
pub struct ItemTag {
    pub id: u64,
}

/// What the crafting logic reads of an item definition: its identity, the
/// tags it carries, whether it may be salvaged, and the definitions that
/// salvaging one of it yields.
#[derive(Clone, Debug, PartialEq, Eq)]
pub struct ItemDef {
    pub id: u64,
    pub tags: Vec<ItemTag>,
    pub salvageable: bool,
    pub salvage_into: Vec<u64>,
}

/// The mathematical content of an item definition.
pub struct ItemDefModel {
    pub id: u64,
    pub tags: Seq<ItemTag>,
    pub salvageable: bool,
    pub salvage_into: Seq<u64>,
}

impl View for ItemDef {
    type V = ItemDefModel;

    open spec fn view(&self) -> ItemDefModel {
        ItemDefModel {
            id: self.id,
            tags: self.tags@,
            salvageable: self.salvageable,
            salvage_into: self.salvage_into@,
        }
    }
}

/// A stack of identical items occupying one inventory slot.
#[derive(Clone, Debug, PartialEq, Eq)]
pub struct Item {
    pub def: ItemDef,
    pub amount: u32,
}

/// One requirement of a recipe: a specific item definition, or any item
/// carrying a tag.
#[derive(Clone, Debug, PartialEq, Eq)]
pub enum RecipeInput {
    Item(ItemDef),
    Tag(ItemTag),
}

/// The raw, unresolved form of a recipe input, as read from data files: an
/// asset name still to be resolved into a definition, or a tag.
#[derive(Clone, Debug, PartialEq, Eq)]
pub enum RawRecipeInput {
    Item(String),
    Tag(ItemTag),
}

/// A recipe: what it produces and in what quantity, what it consumes, and
/// the crafting-station sprite (by numeric identity) it needs, if any.
#[derive(Debug, PartialEq, Eq)]
pub struct Recipe {
    pub output: (ItemDef, u32),
    pub inputs: Vec<(RecipeInput, u32)>,
    pub craft_sprite: Option<u32>,
}

/// Why salvaging was refused.
#[derive(Clone, Copy, PartialEq, Eq, Structural, Debug)]
pub enum SalvageError {
    NotSalvageable,
}

impl ItemDef {
    /// A copy whose content equals `self`'s.
    pub fn clone_def(&self) -> (r: ItemDef)
        ensures
            r@ == self@,
    {
        let mut tags: Vec<ItemTag> = Vec::new();
        let n = self.tags.len();
        let mut i: usize = 0;
        while i < n
            invariant
                n == self.tags@.len(),
                i <= n,
                tags@ == self.tags@.subrange(0, i as int),
            decreases n - i,
        {
            tags.push(self.tags[i]);
            proof {
                assert(tags@ =~= self.tags@.subrange(0, i + 1));
            }
            i += 1;
        }
        let mut salvage_into: Vec<u64> = Vec::new();
        let m = self.salvage_into.len();
        let mut j: usize = 0;
        while j < m
            invariant
                m == self.salvage_into@.len(),
                j <= m,
                salvage_into@ == self.salvage_into@.subrange(0, j as int),
            decreases m - j,
        {
            salvage_into.push(self.salvage_into[j]);
            proof {
                assert(salvage_into@ =~= self.salvage_into@.subrange(0, j + 1));
            }
            j += 1;
        }
        proof {
            assert(tags@ =~= self.tags@);
            assert(salvage_into@ =~= self.salvage_into@);
        }
        ItemDef { id: self.id, tags, salvageable: self.salvageable, salvage_into }
    }
}

impl Item {
    /// Whether this stack satisfies `input`: the exact definition for an
    /// item requirement, any carried tag for a tag requirement.
    pub open spec fn spec_matches_recipe_input(self, input: RecipeInput) -> bool {
        match input {
            RecipeInput::Item(d) => self.def.id == d.id,
            RecipeInput::Tag(t) => self.def.tags@.contains(t),
        }
    }

    #[verifier::loop_isolation(false)]
    pub fn matches_recipe_input(&self, input: &RecipeInput) -> (r: bool)
        ensures
            r == self.spec_matches_recipe_input(*input),
    {
        match input {
            RecipeInput::Item(d) => self.def.id == d.id,
            RecipeInput::Tag(t) => {
                let n = self.def.tags.len();
                let mut i: usize = 0;
                while i < n
                    invariant
                        n == self.def.tags@.len(),
                        i <= n,
                        forall|j: int| 0 <= j < i ==> self.def.tags@[j] != *t,
                    decreases n - i,
                {
                    if self.def.tags[i] == *t {
                        proof {
                            assert(self.def.tags@[i as int] == *t);
                            assert(self.def.tags@.contains(*t));
                        }
                        return true;
                    }
                    i += 1;
                }
                proof {
                    assert(!self.def.tags@.contains(*t));
                }
                false
            },
        }
    }

    /// How many items the stack holds.
    pub fn amount(&self) -> (r: u32)
        ensures
            r == self.amount,
    {
        self.amount
    }

    /// Whether salvaging this item is allowed at all.
    pub fn is_salvageable(&self) -> (r: bool)
        ensures
            r == self.def.salvageable,
    {
        self.def.salvageable
    }
}

/// A row of slots, each either empty or holding a stack of items.
pub struct Inventory {
    slots: Vec<Option<Item>>,
}

impl Inventory {
    pub closed spec fn slots_view(self) -> Seq<Option<Item>> {
        self.slots@
    }

    /// The item in `slot`, or nothing for an empty or out-of-range slot.
    pub open spec fn spec_get(self, slot: int) -> Option<Item> {
        if 0 <= slot < self.slots_view().len() {
            self.slots_view()[slot]
        } else {
            None
        }
    }

    /// Every occupied slot holds at least one item.
    pub open spec fn wf(self) -> bool {
        forall|i: int|
            0 <= i < self.slots_view().len() ==> match #[trigger] self.slots_view()[i] {
                Some(it) => it.amount >= 1,
                None => true,
            }
    }

    /// An inventory with no slots.
    pub fn new() -> (r: Inventory)
        ensures
            r.wf(),
            r.slots_view() == Seq::<Option<Item>>::empty(),
    {
        let r = Inventory { slots: Vec::new() };
        proof {
            assert(r.slots_view() =~= Seq::<Option<Item>>::empty());
        }
        r
    }

    /// Append one slot, empty or holding a non-empty stack.
    pub fn push_slot(&mut self, slot: Option<Item>)
        requires
            old(self).wf(),
            slot matches Some(it) ==> it.amount >= 1,
        ensures
            final(self).wf(),
            final(self).slots_view() == old(self).slots_view().push(slot),
    {
        self.slots.push(slot);
    }

    pub fn slot_count(&self) -> (r: usize)
        ensures
            r == self.slots_view().len(),
    {
        self.slots.len()
    }

    /// The item in `slot`, if the slot exists and is occupied.
    pub fn get(&self, slot: usize) -> (r: Option<&Item>)
        ensures
            match r {
                Some(it) => self.spec_get(slot as int) == Some(*it),
                None => self.spec_get(slot as int) is None,
            },
    {
        if slot < self.slots.len() {
            match &self.slots[slot] {
                Some(it) => Some(it),
                None => None,
            }
        } else {
            None
        }
    }

    /// Take a single item out of `slot`: the stack shrinks by one and the
    /// slot empties when its last item goes.  Nothing happens for an empty
    /// or out-of-range slot.
    pub fn take_one(&mut self, slot: usize) -> (r: Option<Item>)
        requires
            old(self).wf(),
        ensures
            final(self).wf(),
            match old(self).spec_get(slot as int) {
                Some(it) => {
                    &&& r matches Some(t) && t.def@ == it.def@ && t.amount == 1
                    &&& final(self).slots_view() == old(self).slots_view().update(
                        slot as int,
                        if it.amount > 1 {
                            Some(Item { def: it.def, amount: (it.amount - 1) as u32 })
                        } else {
                            None
                        },
                    )
                },
                None => r is None && *final(self) == *old(self),
            },
    {
        if slot >= self.slots.len() {
            return None;
        }
        let occupied = match &self.slots[slot] {
            Some(_) => true,
            None => false,
        };
        if !occupied {
            return None;
        }
        let ghost old_slots = self.slots@;
        let mut tmp: Option<Item> = None;
        self.slots.set_and_swap(slot, &mut tmp);
        let it = tmp.unwrap();
        if it.amount > 1 {
            let taken = Item { def: it.def.clone_def(), amount: 1 };
            self.slots.set(slot, Some(Item { def: it.def, amount: it.amount - 1 }));
            proof {
                assert(self.slots@ =~= old_slots.update(
                    slot as int,
                    Some(
                        Item {
                            def: old_slots[slot as int]->Some_0.def,
                            amount: (old_slots[slot as int]->Some_0.amount - 1) as u32,
                        },
                    ),
                ));
            }
            Some(taken)
        } else {
            proof {
                assert(self.slots@ =~= old_slots.update(slot as int, None::<Item>));
            }
            Some(it)
        }
    }
}

impl Recipe {
    /// The recipe's requirements, each with the amount needed.
    pub fn inputs(&self) -> (r: &Vec<(RecipeInput, u32)>)
        ensures
            r@ == self.inputs@,
    {
        &self.inputs
    }
}

/// Whether two inputs ask for the same thing.
pub open spec fn input_eqv(a: RecipeInput, b: RecipeInput) -> bool {
    match (a, b) {
        (RecipeInput::Item(d1), RecipeInput::Item(d2)) => d1@ == d2@,
        (RecipeInput::Tag(t1), RecipeInput::Tag(t2)) => t1 == t2,
        _ => false,
    }
}

/// Whether two recipes have the same content.
pub open spec fn recipe_eqv(a: Recipe, b: Recipe) -> bool {
    &&& a.output.0@ == b.output.0@
    &&& a.output.1 == b.output.1
    &&& a.craft_sprite == b.craft_sprite
    &&& a.inputs@.len() == b.inputs@.len()
    &&& forall|i: int|
        0 <= i < a.inputs@.len() ==> input_eqv(#[trigger] a.inputs@[i].0, b.inputs@[i].0)
            && a.inputs@[i].1 == b.inputs@[i].1
}

impl RecipeInput {
    /// A copy asking for the same thing.
    pub fn clone_input(&self) -> (r: RecipeInput)
        ensures
            input_eqv(r, *self),
    {
        match self {
            RecipeInput::Item(d) => RecipeInput::Item(d.clone_def()),
            RecipeInput::Tag(t) => RecipeInput::Tag(*t),
        }
    }
}

impl Recipe {
    /// A copy with the same content.
    #[verifier::loop_isolation(false)]
    pub fn clone_recipe(&self) -> (r: Recipe)
        ensures
            recipe_eqv(r, *self),
    {
        let mut inputs: Vec<(RecipeInput, u32)> = Vec::new();
        let n = self.inputs.len();
        let mut i: usize = 0;
        while i < n
            invariant
                i <= n,
                inputs@.len() == i,
                forall|j: int|
                    0 <= j < i ==> input_eqv((#[trigger] inputs@[j]).0, self.inputs@[j].0)
                        && inputs@[j].1 == self.inputs@[j].1,
            decreases n - i,
        {
            let pair = &self.inputs[i];
            inputs.push((pair.0.clone_input(), pair.1));
            i += 1;
        }
        Recipe {
            output: (self.output.0.clone_def(), self.output.1),
            inputs,
            craft_sprite: self.craft_sprite,
        }
    }
}

/// A collection of recipes under unique names.
pub struct RecipeBook {
    recipes: Vec<(String, Recipe)>,
}

impl RecipeBook {
    pub closed spec fn entries(self) -> Seq<(String, Recipe)> {
        self.recipes@
    }

    /// Whether some recipe is filed under `name`.
    pub open spec fn has_name(self, name: Seq<char>) -> bool {
        exists|i: int| 0 <= i < self.entries().len() && (#[trigger] self.entries()[i]).0@ == name
    }

    /// Names are unique.
    pub open spec fn wf(self) -> bool {
        forall|i: int, j: int|
            0 <= i < j < self.entries().len() ==> (#[trigger] self.entries()[i]).0@ != (
            #[trigger] self.entries()[j]).0@
    }

    /// An empty book.
    pub fn new() -> (r: RecipeBook)
        ensures
            r.wf(),
            r.entries() == Seq::<(String, Recipe)>::empty(),
    {
        let r = RecipeBook { recipes: Vec::new() };
        proof {
            assert(r.entries() =~= Seq::<(String, Recipe)>::empty());
        }
        r
    }

    /// File `recipe` under `name`; refused without effect when the name is
    /// already taken.
    #[verifier::loop_isolation(false)]
    pub fn insert(&mut self, name: String, recipe: Recipe) -> (added: bool)
        requires
            old(self).wf(),
        ensures
            final(self).wf(),
            added == !old(self).has_name(name@),
            added ==> final(self).entries() == old(self).entries().push((name, recipe)),
            !added ==> *final(self) == *old(self),
    {
        let n = self.recipes.len();
        let mut i: usize = 0;
        while i < n
            invariant
                i <= n,
                n == self.entries().len(),
                forall|j: int| 0 <= j < i ==> (#[trigger] self.entries()[j]).0@ != name@,
            decreases n - i,
        {
            if self.recipes[i].0 == name {
                return false;
            }
            i += 1;
        }
        let ghost old_entries = self.entries();
        self.recipes.push((name, recipe));
        proof {
            assert(self.entries() =~= old_entries.push((name, recipe)));
        }
        true
    }

    /// The recipe filed under `name`, if any.
    pub fn get(&self, name: &str) -> (r: Option<&Recipe>)
        ensures
            match r {
                Some(rec) => exists|i: int|
                    0 <= i < self.entries().len() && (#[trigger] self.entries()[i]).0@ == name@
                        && *rec == self.entries()[i].1,
                None => !self.has_name(name@),
            },
    {
        let wanted = name.to_owned();
        let n = self.recipes.len();
        let mut i: usize = 0;
        while i < n
            invariant
                i <= n,
                n == self.entries().len(),
                wanted@ == name@,
                forall|j: int| 0 <= j < i ==> (#[trigger] self.entries()[j]).0@ != name@,
            decreases n - i,
        {
            if self.recipes[i].0 == wanted {
                return Some(&self.recipes[i].1);
            }
            i += 1;
        }
        None
    }

    /// Every entry of the book, for callers that walk all recipes.
    pub fn list(&self) -> (r: &Vec<(String, Recipe)>)
        ensures
            r@ == self.entries(),
    {
        &self.recipes
    }
}

/// Salvage the item in `slot`.  If the slot holds a salvageable item whose
/// definition yields at least one salvage output, one item is removed from
/// the slot and the identities of the definitions it breaks into are
/// returned; materialising those definitions into items is the caller's
/// concern.  Otherwise — empty slot, unsalvageable item, or an item that
/// salvages into nothing — the inventory is untouched.
pub fn try_salvage(inv: &mut Inventory, slot: usize) -> (r: Result<Vec<u64>, SalvageError>)
    requires
        old(inv).wf(),
    ensures
        final(inv).wf(),
        match old(inv).spec_get(slot as int) {
            Some(it) => {
                if it.def.salvageable && it.def.salvage_into@.len() > 0 {
                    &&& r matches Ok(out) && out@ == it.def.salvage_into@
                    &&& final(inv).slots_view() == old(inv).slots_view().update(
                        slot as int,
                        if it.amount > 1 {
                            Some(Item { def: it.def, amount: (it.amount - 1) as u32 })
                        } else {
                            None
                        },
                    )
                } else {
                    &&& r matches Err(e) && e == SalvageError::NotSalvageable
                    &&& *final(inv) == *old(inv)
                }
            },
            None => {
                &&& r matches Err(e) && e == SalvageError::NotSalvageable
                &&& *final(inv) == *old(inv)
            },
        },
{
    let outputs = match inv.get(slot) {
        Some(item) => {
            if item.is_salvageable() {
                Some(item.def.clone_def().salvage_into)
            } else {
                None
            }
        },
        None => None,
    };
    match outputs {
        Some(out) => {
            if out.len() == 0 {
                // Outputs are missing for this definition: treat the
                // salvage as a failure and leave the item alone.
                Err(SalvageError::NotSalvageable)
            } else {
                let taken = inv.take_one(slot);
                proof {
                    assert(taken is Some);
                }
                Ok(out)
            }
        },
        None => Err(SalvageError::NotSalvageable),
    }
}

} // verus!
