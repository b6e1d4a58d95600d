use vstd::prelude::*;
use vstd::pervasive::VecAdditionalExecFns;
use crate::recipe::Inventory;
use crate::recipe::Item;
use crate::recipe::Recipe;
use crate::recipe::RecipeBook;
use crate::recipe::RecipeInput;
use crate::recipe::recipe_eqv;

verus! {

// Crafting walks the recipe's inputs in order and, for each, claims items
// out of inventory slots, never claiming more out of a slot than it holds.
// The functions below mirror that walk at the specification level; the
// executable methods are proved to compute exactly these folds.

/// How many items the slot holds.
pub open spec fn spec_slot_amount(inv: Seq<Option<Item>>, s: int) -> u32 {
    match inv[s] {
        Some(it) => it.amount,
        None => 0u32,
    }
}

/// No slot has more claimed out of it than it holds.
pub open spec fn claims_bounded(inv: Seq<Option<Item>>, claims: Seq<u32>) -> bool {
    &&& claims.len() == inv.len()
    &&& forall|s: int| 0 <= s < inv.len() ==> #[trigger] claims[s] <= spec_slot_amount(inv, s)
}

/// One claiming step for the input with index `idx` and remaining need
/// `acc.1`: examine one provided `(input index, slot)` pair, and claim as
/// much of the slot's unclaimed content as is still needed.  `acc` is
/// `(claims so far, still required, any matching slot seen)`.
pub open spec fn spec_claim_step(
    inv: Seq<Option<Item>>,
    input: RecipeInput,
    idx: u32,
    pair: (u32, usize),
    acc: (Seq<u32>, u32, bool),
) -> (Seq<u32>, u32, bool) {
    let claims = acc.0;
    let required = acc.1;
    let s = pair.1 as int;
    if pair.0 == idx && 0 <= s < inv.len() && inv[s] is Some
        && inv[s]->Some_0.spec_matches_recipe_input(input) {
        let item = inv[s]->Some_0;
        let already = claims[s];
        let available: u32 = if item.amount >= already {
            (item.amount - already) as u32
        } else {
            0u32
        };
        let provided: u32 = if available <= required {
            available
        } else {
            required
        };
        (claims.update(s, (already + provided) as u32), (required - provided) as u32, true)
    } else {
        acc
    }
}

/// Claim for one input from each provided pair, in order.
pub open spec fn spec_claim_input(
    inv: Seq<Option<Item>>,
    input: RecipeInput,
    idx: u32,
    pairs: Seq<(u32, usize)>,
    acc: (Seq<u32>, u32, bool),
) -> (Seq<u32>, u32, bool)
    decreases pairs.len(),
{
    if pairs.len() == 0 {
        acc
    } else {
        spec_claim_input(
            inv,
            input,
            idx,
            pairs.drop_first(),
            spec_claim_step(inv, input, idx, pairs[0], acc),
        )
    }
}

/// Walk the inputs in order, claiming each from the provided pairs; an
/// input whose need is not fully covered, or that no provided slot
/// matches, is recorded with the amount still missing.
pub open spec fn spec_claim_all(
    inv: Seq<Option<Item>>,
    inputs: Seq<(RecipeInput, u32)>,
    pairs: Seq<(u32, usize)>,
    idx: u32,
    claims: Seq<u32>,
    missing: Seq<(RecipeInput, u32)>,
) -> (Seq<u32>, Seq<(RecipeInput, u32)>)
    decreases inputs.len(),
{
    if inputs.len() == 0 {
        (claims, missing)
    } else {
        let input = inputs[0].0;
        let required = inputs[0].1;
        let r = spec_claim_input(inv, input, idx, pairs, (claims, required, false));
        let missing2 = if r.1 > 0 || !r.2 {
            missing.push((input, r.1))
        } else {
            missing
        };
        spec_claim_all(inv, inputs.drop_first(), pairs, (idx + 1) as u32, r.0, missing2)
    }
}

/// One gathering step: examine inventory slot `s` while covering the input
/// with index `idx`.  A matching occupied slot is recorded — even when its
/// content is already fully claimed — and as much of its unclaimed content
/// as is still needed is claimed.  `acc` is `(claims, still needed, any
/// matching slot seen, slots recorded)`.
pub open spec fn spec_gather_step(
    inv: Seq<Option<Item>>,
    input: RecipeInput,
    idx: u32,
    s: int,
    acc: (Seq<u32>, u32, bool, Seq<(u32, usize)>),
) -> (Seq<u32>, u32, bool, Seq<(u32, usize)>) {
    match inv[s] {
        Some(it) => if it.spec_matches_recipe_input(input) {
            let already = acc.0[s];
            let avail: u32 = if it.amount >= already {
                (it.amount - already) as u32
            } else {
                0u32
            };
            let can: u32 = if avail <= acc.1 {
                avail
            } else {
                acc.1
            };
            (
                acc.0.update(s, (already + can) as u32),
                (acc.1 - can) as u32,
                true,
                acc.3.push((idx, s as usize)),
            )
        } else {
            acc
        },
        None => acc,
    }
}

/// Gather one input from every inventory slot, in slot order, starting at
/// slot `s`.
pub open spec fn spec_gather_input(
    inv: Seq<Option<Item>>,
    input: RecipeInput,
    idx: u32,
    s: int,
    acc: (Seq<u32>, u32, bool, Seq<(u32, usize)>),
) -> (Seq<u32>, u32, bool, Seq<(u32, usize)>)
    decreases inv.len() - s,
{
    if s < 0 || s >= inv.len() {
        acc
    } else {
        spec_gather_input(inv, input, idx, s + 1, spec_gather_step(inv, input, idx, s, acc))
    }
}

/// Walk the inputs in order, gathering each from the whole inventory; an
/// input not fully covered is recorded with the amount still missing.
pub open spec fn spec_gather_all(
    inv: Seq<Option<Item>>,
    inputs: Seq<(RecipeInput, u32)>,
    idx: u32,
    claims: Seq<u32>,
    out: Seq<(u32, usize)>,
    missing: Seq<(RecipeInput, u32)>,
) -> (Seq<u32>, Seq<(u32, usize)>, Seq<(RecipeInput, u32)>)
    decreases inputs.len(),
{
    if inputs.len() == 0 {
        (claims, out, missing)
    } else {
        let r = spec_gather_input(inv, inputs[0].0, idx, 0, (claims, inputs[0].1, false, out));
        let missing2 = if r.1 > 0 || !r.2 {
            missing.push((inputs[0].0, r.1))
        } else {
            missing
        };
        spec_gather_all(inv, inputs.drop_first(), (idx + 1) as u32, r.0, r.3, missing2)
    }
}

/// The slot after `k` single items were taken out of it.
pub open spec fn spec_after_takes(slot: Option<Item>, k: u32) -> Option<Item> {
    if k == 0 {
        slot
    } else {
        match slot {
            Some(it) => if it.amount > k {
                Some(Item { def: it.def, amount: (it.amount - k) as u32 })
            } else {
                None
            },
            None => None,
        }
    }
}

/// The inventory after each slot loses the amount claimed out of it.
pub open spec fn spec_consume(inv: Seq<Option<Item>>, claims: Seq<u32>) -> Seq<Option<Item>> {
    Seq::new(inv.len(), |s: int| spec_after_takes(inv[s], claims[s]))
}

impl Recipe {
    /// The claims and the missing list that walking this recipe's inputs
    /// over the provided pairs computes against `inv`.
    pub open spec fn spec_claims(self, inv: Seq<Option<Item>>, pairs: Seq<(u32, usize)>) -> (
        Seq<u32>,
        Seq<(RecipeInput, u32)>,
    ) {
        spec_claim_all(
            inv,
            self.inputs@,
            pairs,
            0,
            Seq::new(inv.len(), |s: int| 0u32),
            Seq::empty(),
        )
    }

    /// Perform the recipe once.  `slots` ties each provided slot to the
    /// input (by index) it is meant to cover.  When every input is covered
    /// the claimed items are consumed and the produced stack is returned;
    /// otherwise the inventory is untouched and each uncovered input comes
    /// back with the amount still missing.
    #[verifier::loop_isolation(false)]
    pub fn craft_simple<'a>(&'a self, inv: &mut Inventory, slots: Vec<(u32, usize)>) -> (r:
        Result<Vec<Item>, Vec<(&'a RecipeInput, u32)>>)
        requires
            old(inv).wf(),
            self.inputs@.len() <= u32::MAX,
        ensures
            final(inv).wf(),
            ({
                let cm = self.spec_claims(old(inv).slots_view(), slots@);
                match r {
                    Ok(items) => {
                        &&& cm.1.len() == 0
                        &&& items@.len() == self.output.1
                        &&& forall|k: int|
                            0 <= k < items@.len() ==> (#[trigger] items@[k]).def@
                                == self.output.0@ && items@[k].amount == 1
                        &&& final(inv).slots_view() == spec_consume(
                            old(inv).slots_view(),
                            cm.0,
                        )
                    },
                    Err(miss) => {
                        &&& cm.1.len() > 0
                        &&& miss@.len() == cm.1.len()
                        &&& forall|k: int|
                            0 <= k < miss@.len() ==> *(#[trigger] miss@[k]).0 == cm.1[k].0
                                && miss@[k].1 == cm.1[k].1
                        &&& *final(inv) == *old(inv)
                    },
                }
            }),
    {
        let ghost inv0 = inv.slots_view();
        let n_inputs = self.inputs.len();
        let n_slots = inv.slot_count();
        let n_pairs = slots.len();
        let mut claims: Vec<u32> = vec![0u32; n_slots];
        let mut missing: Vec<(&'a RecipeInput, u32)> = Vec::new();
        let ghost mut missing_spec: Seq<(RecipeInput, u32)> = Seq::empty();
        proof {
            assert(claims@ =~= Seq::new(inv0.len(), |s: int| 0u32));
        }
        let ghost target = self.spec_claims(inv0, slots@);
        proof {
            assert(self.inputs@.skip(0) =~= self.inputs@);
        }
        let mut i: usize = 0;
        while i < n_inputs
            invariant
                i <= n_inputs,
                claims_bounded(inv0, claims@),
                missing@.len() == missing_spec.len(),
                forall|k: int|
                    0 <= k < missing@.len() ==> *(#[trigger] missing@[k]).0 == missing_spec[k].0
                        && missing@[k].1 == missing_spec[k].1,
                spec_claim_all(inv0, self.inputs@.skip(i as int), slots@, i as u32, claims@,
                    missing_spec) == target,
            decreases n_inputs - i,
        {
            let input_ref: &RecipeInput = &self.inputs[i].0;
            let mut required = self.inputs[i].1;
            let mut any = false;
            let ghost acc0 = (claims@, required, false);
            let ghost inner_target = spec_claim_input(inv0, *input_ref, i as u32, slots@, acc0);
            proof {
                assert(slots@.skip(0) =~= slots@);
            }
            let mut p: usize = 0;
            while p < n_pairs
                invariant
                    p <= n_pairs,
                    claims_bounded(inv0, claims@),
                    spec_claim_input(inv0, *input_ref, i as u32, slots@.skip(p as int),
                        (claims@, required, any)) == inner_target,
                decreases n_pairs - p,
            {
                let (j, s) = slots[p];
                let ghost before = (claims@, required, any);
                if j == i as u32 {
                    match inv.get(s) {
                        Some(item) => {
                            if item.matches_recipe_input(input_ref) {
                                let already = claims[s];
                                let available = if item.amount() >= already {
                                    item.amount() - already
                                } else {
                                    0
                                };
                                let provided = if available <= required {
                                    available
                                } else {
                                    required
                                };
                                required = required - provided;
                                claims.set(s, already + provided);
                                any = true;
                            }
                        },
                        None => {},
                    }
                }
                proof {
                    assert((claims@, required, any) == spec_claim_step(
                        inv0,
                        *input_ref,
                        i as u32,
                        slots@[p as int],
                        before,
                    ));
                    assert(slots@.skip(p as int)[0] == slots@[p as int]);
                    assert(slots@.skip(p as int).drop_first() =~= slots@.skip(p as int + 1));
                }
                p += 1;
            }
            proof {
                assert(slots@.skip(n_pairs as int) =~= Seq::<(u32, usize)>::empty());
                assert((claims@, required, any) == inner_target);
            }
            if required > 0 || !any {
                missing.push((input_ref, required));
                proof {
                    missing_spec = missing_spec.push((self.inputs@[i as int].0, required));
                }
            }
            proof {
                assert(self.inputs@.skip(i as int)[0] == self.inputs@[i as int]);
                assert(self.inputs@.skip(i as int).drop_first() =~= self.inputs@.skip(
                    i as int + 1,
                ));
            }
            i += 1;
        }
        proof {
            assert(self.inputs@.skip(n_inputs as int) =~= Seq::<(RecipeInput, u32)>::empty());
            assert((claims@, missing_spec) == target);
        }
        if missing.len() > 0 {
            return Err(missing);
        }
        // Every input is covered: consume the claimed items slot by slot.
        let mut s: usize = 0;
        while s < n_slots
            invariant
                s <= n_slots,
                inv.wf(),
                inv.slots_view().len() == n_slots,
                claims_bounded(inv0, claims@),
                claims@ == target.0,
                forall|j: int|
                    0 <= j < s ==> inv.slots_view()[j] == #[trigger] spec_consume(inv0, claims@)[j],
                forall|j: int| s <= j < n_slots ==> #[trigger] inv.slots_view()[j] == inv0[j],
            decreases n_slots - s,
        {
            let c = claims[s];
            let mut k: u32 = 0;
            while k < c
                invariant
                    k <= c,
                    c == claims@[s as int],
                    inv.wf(),
                    inv.slots_view().len() == n_slots,
                    forall|j: int|
                        0 <= j < s ==> inv.slots_view()[j] == #[trigger] spec_consume(
                            inv0,
                            claims@,
                        )[j],
                    forall|j: int| s < j < n_slots ==> #[trigger] inv.slots_view()[j] == inv0[j],
                    inv.slots_view()[s as int] == spec_after_takes(inv0[s as int], k),
                decreases c - k,
            {
                proof {
                    assert(claims@[s as int] <= spec_slot_amount(inv0, s as int));
                    assert(inv0[s as int] is Some);
                }
                let taken = inv.take_one(s);
                proof {
                    assert(taken is Some);
                    assert(inv.slots_view()[s as int] == spec_after_takes(inv0[s as int], (k
                        + 1) as u32));
                }
                k += 1;
            }
            proof {
                assert(inv.slots_view()[s as int] == spec_consume(inv0, claims@)[s as int]);
            }
            s += 1;
        }
        proof {
            assert(inv.slots_view() =~= spec_consume(inv0, claims@));
        }
        // Produce the output stacks.
        let quantity = self.output.1;
        let mut crafted: Vec<Item> = Vec::new();
        let mut q: u32 = 0;
        while q < quantity
            invariant
                q <= quantity,
                crafted@.len() == q,
                forall|k: int|
                    0 <= k < crafted@.len() ==> (#[trigger] crafted@[k]).def@ == self.output.0@
                        && crafted@[k].amount == 1,
            decreases quantity - q,
        {
            crafted.push(Item { def: self.output.0.clone_def(), amount: 1 });
            q += 1;
        }
        Ok(crafted)
    }

    /// The claims, recorded slots, and missing list that gathering this
    /// recipe's inputs across the whole inventory computes.
    pub open spec fn spec_gather(self, inv: Seq<Option<Item>>) -> (
        Seq<u32>,
        Seq<(u32, usize)>,
        Seq<(RecipeInput, u32)>,
    ) {
        spec_gather_all(
            inv,
            self.inputs@,
            0,
            Seq::new(inv.len(), |s: int| 0u32),
            Seq::empty(),
            Seq::empty(),
        )
    }

    /// Determine whether the inventory contains the ingredients for this
    /// recipe.  If it does, return the inventory slots that cover them,
    /// each tied to the input (by index) it covers; if not, return the
    /// uncovered inputs and how much of each is missing.  The inventory is
    /// only read.
    #[verifier::loop_isolation(false)]
    pub fn inventory_contains_ingredients<'a>(&'a self, inv: &Inventory) -> (r: Result<
        Vec<(u32, usize)>,
        Vec<(&'a RecipeInput, u32)>,
    >)
        requires
            self.inputs@.len() <= u32::MAX,
        ensures
            ({
                let g = self.spec_gather(inv.slots_view());
                match r {
                    Ok(out) => g.2.len() == 0 && out@ == g.1,
                    Err(miss) => {
                        &&& g.2.len() > 0
                        &&& miss@.len() == g.2.len()
                        &&& forall|k: int|
                            0 <= k < miss@.len() ==> *(#[trigger] miss@[k]).0 == g.2[k].0
                                && miss@[k].1 == g.2[k].1
                    },
                }
            }),
    {
        let ghost inv0 = inv.slots_view();
        let n_inputs = self.inputs.len();
        let n_slots = inv.slot_count();
        let mut claims: Vec<u32> = vec![0u32; n_slots];
        let mut out: Vec<(u32, usize)> = Vec::new();
        let mut missing: Vec<(&'a RecipeInput, u32)> = Vec::new();
        let ghost mut missing_spec: Seq<(RecipeInput, u32)> = Seq::empty();
        proof {
            assert(claims@ =~= Seq::new(inv0.len(), |s: int| 0u32));
            assert(out@ =~= Seq::<(u32, usize)>::empty());
        }
        let ghost target = self.spec_gather(inv0);
        proof {
            assert(self.inputs@.skip(0) =~= self.inputs@);
        }
        let mut i: usize = 0;
        while i < n_inputs
            invariant
                i <= n_inputs,
                claims@.len() == n_slots,
                missing@.len() == missing_spec.len(),
                forall|k: int|
                    0 <= k < missing@.len() ==> *(#[trigger] missing@[k]).0 == missing_spec[k].0
                        && missing@[k].1 == missing_spec[k].1,
                spec_gather_all(inv0, self.inputs@.skip(i as int), i as u32, claims@, out@,
                    missing_spec) == target,
            decreases n_inputs - i,
        {
            let input_ref: &RecipeInput = &self.inputs[i].0;
            let mut needed = self.inputs[i].1;
            let mut any = false;
            let ghost acc0 = (claims@, needed, false, out@);
            let ghost inner_target = spec_gather_input(inv0, *input_ref, i as u32, 0, acc0);
            let mut s: usize = 0;
            while s < n_slots
                invariant
                    s <= n_slots,
                    claims@.len() == n_slots,
                    spec_gather_input(inv0, *input_ref, i as u32, s as int,
                        (claims@, needed, any, out@)) == inner_target,
                decreases n_slots - s,
            {
                let ghost before = (claims@, needed, any, out@);
                match inv.get(s) {
                    Some(item) => {
                        if item.matches_recipe_input(input_ref) {
                            let already = claims[s];
                            out.push((i as u32, s));
                            let avail = if item.amount() >= already {
                                item.amount() - already
                            } else {
                                0
                            };
                            let can = if avail <= needed {
                                avail
                            } else {
                                needed
                            };
                            claims.set(s, already + can);
                            needed = needed - can;
                            any = true;
                        }
                    },
                    None => {},
                }
                proof {
                    assert((claims@, needed, any, out@) == spec_gather_step(
                        inv0,
                        *input_ref,
                        i as u32,
                        s as int,
                        before,
                    ));
                }
                s += 1;
            }
            if needed > 0 || !any {
                missing.push((input_ref, needed));
                proof {
                    missing_spec = missing_spec.push((self.inputs@[i as int].0, needed));
                }
            }
            proof {
                assert(self.inputs@.skip(i as int)[0] == self.inputs@[i as int]);
                assert(self.inputs@.skip(i as int).drop_first() =~= self.inputs@.skip(
                    i as int + 1,
                ));
            }
            i += 1;
        }
        proof {
            assert(self.inputs@.skip(n_inputs as int) =~= Seq::<(RecipeInput, u32)>::empty());
            assert((claims@, out@, missing_spec) == target);
        }
        if missing.len() > 0 {
            Err(missing)
        } else {
            Ok(out)
        }
    }
}

/// Whether `p` carries the name and the content of some entry of `book`
/// whose ingredients `inv` fully contains.
pub open spec fn available_source(
    book: RecipeBook,
    inv: Seq<Option<Item>>,
    p: (String, Recipe),
) -> bool {
    exists|i: int|
        0 <= i < book.entries().len() && p.0@ == (#[trigger] book.entries()[i]).0@ && recipe_eqv(
            p.1,
            book.entries()[i].1,
        ) && book.entries()[i].1.spec_gather(inv).2.len() == 0
}

/// Whether some element of `r` carries `name`.
pub open spec fn named_in(r: Seq<(String, Recipe)>, name: Seq<char>) -> bool {
    exists|k: int| 0 <= k < r.len() && (#[trigger] r[k]).0@ == name
}

impl RecipeBook {
    /// The recipes whose ingredients the inventory currently contains,
    /// each with its name: exactly the entries for which the gathering
    /// walk leaves nothing missing.
    #[verifier::loop_isolation(false)]
    pub fn get_available(&self, inv: &Inventory) -> (r: Vec<(String, Recipe)>)
        requires
            forall|i: int|
                0 <= i < self.entries().len() ==> (#[trigger] self.entries()[i]).1.inputs@.len()
                    <= u32::MAX,
        ensures
            forall|k: int|
                0 <= k < r@.len() ==> available_source(*self, inv.slots_view(), #[trigger] r@[k]),
            forall|i: int|
                0 <= i < self.entries().len() && (#[trigger] self.entries()[i]).1.spec_gather(
                    inv.slots_view(),
                ).2.len() == 0 ==> named_in(r@, self.entries()[i].0@),
    {
        let entries = self.list();
        let n = entries.len();
        let mut out: Vec<(String, Recipe)> = Vec::new();
        // which entry each element of `out` came from
        let ghost mut sources: Seq<int> = Seq::empty();
        // where each available entry seen so far went in `out`
        let ghost mut places: Map<int, int> = Map::empty();
        let mut i: usize = 0;
        while i < n
            invariant
                i <= n,
                sources.len() == out@.len(),
                forall|k: int|
                    0 <= k < out@.len() ==> {
                        let ii = #[trigger] sources[k];
                        &&& 0 <= ii < self.entries().len()
                        &&& out@[k].0@ == self.entries()[ii].0@
                        &&& recipe_eqv(out@[k].1, self.entries()[ii].1)
                        &&& self.entries()[ii].1.spec_gather(inv.slots_view()).2.len() == 0
                    },
                forall|ii: int|
                    0 <= ii < i && (#[trigger] self.entries()[ii]).1.spec_gather(
                        inv.slots_view(),
                    ).2.len() == 0 ==> {
                        &&& places.dom().contains(ii)
                        &&& 0 <= places[ii] < out@.len()
                        &&& out@[places[ii]].0@ == self.entries()[ii].0@
                    },
            decreases n - i,
        {
            let pair = &entries[i];
            proof {
                assert(*pair == self.entries()[i as int]);
            }
            let available = pair.1.inventory_contains_ingredients(inv).is_ok();
            if available {
                let ghost before = out@;
                let name = pair.0.clone();
                let recipe = pair.1.clone_recipe();
                out.push((name, recipe));
                proof {
                    assert(forall|k: int| 0 <= k < before.len() ==> out@[k] == before[k]);
                    places = places.insert(i as int, before.len() as int);
                    sources = sources.push(i as int);
                    assert(out@[before.len() as int].0@ == self.entries()[i as int].0@);
                    assert(recipe_eqv(out@[before.len() as int].1, self.entries()[i as int].1));
                }
            } else {
                proof {
                    assert(self.entries()[i as int].1.spec_gather(inv.slots_view()).2.len() > 0);
                }
            }
            i += 1;
        }
        proof {
            assert forall|k: int| 0 <= k < out@.len() implies available_source(
                *self,
                inv.slots_view(),
                #[trigger] out@[k],
            ) by {
                let ii = sources[k];
                assert(0 <= ii < self.entries().len() && out@[k].0@ == self.entries()[ii].0@
                    && recipe_eqv(out@[k].1, self.entries()[ii].1) && self.entries()[
                ii
                ].1.spec_gather(inv.slots_view()).2.len() == 0);
            }
            assert forall|ii: int|
                0 <= ii < self.entries().len() && (#[trigger] self.entries()[ii]).1.spec_gather(
                    inv.slots_view(),
                ).2.len() == 0 implies named_in(out@, self.entries()[ii].0@) by {
                let k = places[ii];
                assert(0 <= k < out@.len() && out@[k].0@ == self.entries()[ii].0@);
            }
        }
        out
    }
}

} // verus!
