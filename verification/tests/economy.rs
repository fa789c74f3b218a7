//! Harvesters mining, unloading and heading for ore or a refinery.

use ra_engine::economy::{
    advance_refinery_income, consume_one_ore_at, house_has_living_refinery_near, nearest_harvestable_ore,
    nearest_unload_cell, HarvestState, Harvester, MoveFacts, OreCell, RefinerySite,
};
use ra_engine::repairs::HouseAccount;
use ra_engine::repath::MoveGrid;

fn ore(x: u16, y: u16, harvestable: bool, data: u8) -> OreCell {
    OreCell { x, y, harvestable, data }
}

fn harvester(owner: &str, x: u16, y: u16, accum: u32, cargo: u32, movement: Option<MoveFacts>) -> Harvester {
    Harvester { owner: owner.to_string(), x, y, state: Some(HarvestState { accum, cargo }), movement }
}

fn refinery(owner: &str, x: u16, y: u16) -> RefinerySite {
    RefinerySite { alive: true, owner: Some(owner.to_string()), refinery: true, cell: Some((x, y)) }
}

#[test]
fn ore_lookups_and_mining() {
    let grid = MoveGrid::new(10, 10, true);
    let mut field = vec![ore(2, 2, true, 2), ore(5, 5, true, 1), ore(8, 8, false, 9)];
    assert_eq!(nearest_harvestable_ore(&field, &grid, 9, 9), Some((5, 5)));
    assert_eq!(nearest_harvestable_ore(&field, &grid, 0, 0), Some((2, 2)));
    assert!(consume_one_ore_at(&mut field, 5, 5));
    assert_eq!(field, vec![ore(2, 2, true, 2), ore(8, 8, false, 9)]);
    assert!(!consume_one_ore_at(&mut field, 8, 8));
    assert!(consume_one_ore_at(&mut field, 2, 2));
    assert_eq!(field[0].data, 1);

    let sites = vec![refinery("USSR", 0, 0), refinery("Greece", 9, 0)];
    assert!(house_has_living_refinery_near(&sites, "USSR", 1, 1));
    assert!(!house_has_living_refinery_near(&sites, "USSR", 2, 1));
    assert!(!house_has_living_refinery_near(&sites, "ussr", 1, 1));
    assert_eq!(nearest_unload_cell(&sites, &grid, "USSR", 6, 6), Some((1, 1)));
    assert_eq!(nearest_unload_cell(&sites, &grid, "Greece", 0, 5), Some((8, 0)));
    assert_eq!(nearest_unload_cell(&sites, &grid, "Turkey", 0, 5), None);
}

#[test]
fn harvest_tick_mines_unloads_and_dispatches() {
    let grid = MoveGrid::new(10, 10, true);
    let mut field = vec![ore(2, 2, true, 2), ore(5, 5, true, 1), ore(8, 8, false, 9)];
    let sites = vec![refinery("USSR", 0, 0)];
    let mut hs = vec![
        harvester("USSR", 2, 2, 4, 0, None),
        harvester("USSR", 9, 9, 3, 0, None),
        harvester("USSR", 1, 1, 0, 1, None),
        harvester("USSR", 6, 6, 0, 1, Some(MoveFacts { path_len: 0, dest_x: None, dest_y: None })),
        harvester("Greece", 6, 6, 0, 1, Some(MoveFacts { path_len: 3, dest_x: Some(0), dest_y: Some(0) })),
    ];
    let mut accts = vec![
        HouseAccount { house: "USSR".to_string(), funds: 100, spent: 0 },
        HouseAccount { house: "Greece".to_string(), funds: 50, spent: 0 },
    ];
    let moves = advance_refinery_income(&mut hs, &mut field, &sites, &grid, &mut accts, 5, 25);
    assert_eq!(hs[0].state, Some(HarvestState { accum: 0, cargo: 1 }));
    assert_eq!(field[0].data, 1);
    assert_eq!(hs[1].state, Some(HarvestState { accum: 0, cargo: 0 }));
    assert_eq!(hs[2].state, Some(HarvestState { accum: 0, cargo: 0 }));
    assert_eq!(hs[3].state, Some(HarvestState { accum: 0, cargo: 1 }));
    assert_eq!(moves, vec![(1, (5, 5)), (3, (1, 1))]);
    assert_eq!(accts[0].funds, 125);
    assert_eq!(accts[1].funds, 50);
}
