use chunkgen::recipe::Inventory;
use chunkgen::recipe::Item;
use chunkgen::recipe::ItemDef;
use chunkgen::recipe::ItemTag;
use chunkgen::recipe::Recipe;
use chunkgen::recipe::RecipeBook;
use chunkgen::recipe::RecipeInput;
use chunkgen::recipe::SalvageError;
use chunkgen::recipe::try_salvage;

fn plain_def(id: u64) -> ItemDef {
    ItemDef { id, tags: vec![], salvageable: false, salvage_into: vec![] }
}

fn tagged_def(id: u64, tag: u64) -> ItemDef {
    ItemDef { id, tags: vec![ItemTag { id: tag }], salvageable: false, salvage_into: vec![] }
}

fn salvage_def(id: u64, into: Vec<u64>) -> ItemDef {
    ItemDef { id, tags: vec![], salvageable: true, salvage_into: into }
}

fn stack(def: ItemDef, amount: u32) -> Item {
    Item { def, amount }
}

fn inventory_of(slots: Vec<Option<Item>>) -> Inventory {
    let mut inv = Inventory::new();
    for s in slots {
        inv.push_slot(s);
    }
    inv
}

#[test]
fn matches_by_definition_and_by_tag() {
    let it = stack(tagged_def(1, 5), 1);
    assert!(it.matches_recipe_input(&RecipeInput::Item(plain_def(1))));
    assert!(!it.matches_recipe_input(&RecipeInput::Item(plain_def(2))));
    assert!(it.matches_recipe_input(&RecipeInput::Tag(ItemTag { id: 5 })));
    assert!(!it.matches_recipe_input(&RecipeInput::Tag(ItemTag { id: 6 })));
}

#[test]
fn craft_consumes_inputs_and_produces_output() {
    let recipe = Recipe {
        output: (plain_def(100), 2),
        inputs: vec![(RecipeInput::Item(plain_def(1)), 3)],
        craft_sprite: None,
    };
    let mut inv = inventory_of(vec![Some(stack(plain_def(1), 5))]);
    let crafted = recipe.craft_simple(&mut inv, vec![(0, 0)]).expect("craft should succeed");
    assert_eq!(crafted.len(), 2);
    for it in &crafted {
        assert_eq!(it.def.id, 100);
        assert_eq!(it.amount, 1);
    }
    let left = inv.get(0).expect("two items should remain");
    assert_eq!(left.amount(), 2);
}

#[test]
fn craft_empties_a_fully_claimed_slot() {
    let recipe = Recipe {
        output: (plain_def(100), 1),
        inputs: vec![(RecipeInput::Item(plain_def(1)), 4)],
        craft_sprite: None,
    };
    let mut inv = inventory_of(vec![
        Some(stack(plain_def(1), 3)),
        Some(stack(plain_def(1), 2)),
    ]);
    let crafted = recipe.craft_simple(&mut inv, vec![(0, 0), (0, 1)]).expect("craft should succeed");
    assert_eq!(crafted.len(), 1);
    // the first slot is drained, one item is left in the second
    assert!(inv.get(0).is_none());
    assert_eq!(inv.get(1).unwrap().amount(), 1);
}

#[test]
fn craft_reports_missing_and_leaves_inventory_alone() {
    let recipe = Recipe {
        output: (plain_def(100), 1),
        inputs: vec![(RecipeInput::Item(plain_def(1)), 3)],
        craft_sprite: None,
    };
    let mut inv = inventory_of(vec![Some(stack(plain_def(1), 1))]);
    let missing = recipe.craft_simple(&mut inv, vec![(0, 0)]).expect_err("craft should fail");
    assert_eq!(missing.len(), 1);
    assert_eq!(missing[0].1, 2);
    assert_eq!(inv.get(0).unwrap().amount(), 1);
}

#[test]
fn craft_requires_a_matching_slot_even_for_zero_need() {
    // An input needing nothing still needs a matching slot to be present,
    // as with tools that are not consumed.
    let recipe = Recipe {
        output: (plain_def(100), 1),
        inputs: vec![(RecipeInput::Item(plain_def(9)), 0)],
        craft_sprite: None,
    };
    let mut inv = inventory_of(vec![Some(stack(plain_def(9), 1))]);
    // no slot provided for the input: unsatisfied with 0 missing
    let missing = recipe.craft_simple(&mut inv, vec![]).expect_err("no slot was provided");
    assert_eq!(missing.len(), 1);
    assert_eq!(missing[0].1, 0);
    // providing the slot satisfies it without consuming anything
    let crafted = recipe.craft_simple(&mut inv, vec![(0, 0)]).expect("tool present");
    assert_eq!(crafted.len(), 1);
    assert_eq!(inv.get(0).unwrap().amount(), 1);
}

#[test]
fn inventory_contains_ingredients_finds_slots() {
    let recipe = Recipe {
        output: (plain_def(100), 1),
        inputs: vec![
            (RecipeInput::Item(plain_def(1)), 2),
            (RecipeInput::Tag(ItemTag { id: 5 }), 1),
        ],
        craft_sprite: None,
    };
    let inv = inventory_of(vec![
        Some(stack(plain_def(1), 2)),
        None,
        Some(stack(tagged_def(7, 5), 1)),
    ]);
    let slots = recipe.inventory_contains_ingredients(&inv).expect("ingredients are there");
    assert_eq!(slots, vec![(0, 0), (1, 2)]);
}

#[test]
fn inventory_contains_ingredients_reports_missing() {
    let recipe = Recipe {
        output: (plain_def(100), 1),
        inputs: vec![(RecipeInput::Item(plain_def(1)), 5)],
        craft_sprite: None,
    };
    let inv = inventory_of(vec![Some(stack(plain_def(1), 2))]);
    let missing = recipe.inventory_contains_ingredients(&inv).expect_err("three are missing");
    assert_eq!(missing.len(), 1);
    assert_eq!(missing[0].1, 3);
}

#[test]
fn salvage_breaks_an_item_into_outputs() {
    let mut inv = inventory_of(vec![Some(stack(salvage_def(8, vec![21, 22]), 2))]);
    let out = try_salvage(&mut inv, 0).expect("item is salvageable");
    assert_eq!(out, vec![21, 22]);
    assert_eq!(inv.get(0).unwrap().amount(), 1);
}

#[test]
fn salvage_refusals_leave_inventory_alone() {
    // unsalvageable item
    let mut inv = inventory_of(vec![Some(stack(plain_def(1), 1))]);
    assert!(matches!(try_salvage(&mut inv, 0), Err(SalvageError::NotSalvageable)));
    assert_eq!(inv.get(0).unwrap().amount(), 1);
    // empty slot
    let mut inv2 = inventory_of(vec![None]);
    assert!(matches!(try_salvage(&mut inv2, 0), Err(SalvageError::NotSalvageable)));
    // salvageable but with no outputs defined
    let mut inv3 = inventory_of(vec![Some(stack(salvage_def(8, vec![]), 1))]);
    assert!(matches!(try_salvage(&mut inv3, 0), Err(SalvageError::NotSalvageable)));
    assert_eq!(inv3.get(0).unwrap().amount(), 1);
}

#[test]
fn recipe_inputs_are_listed() {
    let recipe = Recipe {
        output: (plain_def(100), 1),
        inputs: vec![(RecipeInput::Item(plain_def(1)), 3)],
        craft_sprite: Some(4),
    };
    let inputs = recipe.inputs();
    assert_eq!(inputs.len(), 1);
    assert_eq!(inputs[0].1, 3);
}

#[test]
fn get_available_lists_exactly_the_craftable_recipes() {
    let mut book = RecipeBook::new();
    let cheap = Recipe {
        output: (plain_def(100), 1),
        inputs: vec![(RecipeInput::Item(plain_def(1)), 1)],
        craft_sprite: None,
    };
    let dear = Recipe {
        output: (plain_def(200), 1),
        inputs: vec![(RecipeInput::Item(plain_def(1)), 10)],
        craft_sprite: None,
    };
    assert!(book.insert("cheap".to_string(), cheap));
    assert!(book.insert("dear".to_string(), dear));
    let inv = inventory_of(vec![Some(stack(plain_def(1), 3))]);
    let available = book.get_available(&inv);
    assert_eq!(available.len(), 1);
    assert_eq!(available[0].0, "cheap");
    assert_eq!(available[0].1.output.0.id, 100);
}

#[test]
fn recipe_book_files_recipes_under_unique_names() {
    let mut book = RecipeBook::new();
    let r1 = Recipe {
        output: (plain_def(100), 1),
        inputs: vec![],
        craft_sprite: None,
    };
    let r2 = Recipe {
        output: (plain_def(200), 1),
        inputs: vec![],
        craft_sprite: None,
    };
    assert!(book.insert("torch".to_string(), r1));
    assert!(book.insert("rope".to_string(), r2));
    let r3 = Recipe {
        output: (plain_def(300), 1),
        inputs: vec![],
        craft_sprite: None,
    };
    assert!(!book.insert("torch".to_string(), r3));
    assert_eq!(book.get("torch").unwrap().output.0.id, 100);
    assert_eq!(book.get("rope").unwrap().output.0.id, 200);
    assert!(book.get("nail").is_none());
    assert_eq!(book.list().len(), 2);
}
