//! Keyed storage and path-finding grid behaviour.

use relay_core::pathfinder::InnerPathFinder;
use relay_core::pathfinder::Mapping;
use relay_core::pathfinder::Team;
use relay_core::pathfinder::TeamId;
use relay_core::pathfinder::UNEXPLORED;
use relay_core::protocol::Player;
use relay_core::store::Identifier;
use relay_core::store::Invalid;
use relay_core::store::KeyMap;
use relay_core::store::Store;
use relay_core::store::Table;
use relay_core::store::Unverified;

#[test]
fn identifier_hashes_names() {
    // the sdbm hash of the empty string is the reserved invalid key
    assert!(Identifier::new("").is_invalid());
    assert_eq!(Identifier::new("a").0, b'a' as u64);
    assert_eq!(Identifier::new("abc"), Identifier::new("abc"));
    assert_ne!(Identifier::new("abc"), Identifier::new("abd"));
}

#[test]
fn key_map_inserts_replaces_and_removes() {
    let mut map: KeyMap<u32> = KeyMap::new();
    assert!(map.get("alpha").is_none());
    assert_eq!(map.insert("alpha", 1), None);
    assert_eq!(map.insert("beta", 2), None);
    assert_eq!(map.get("alpha"), Some(&1));
    assert_eq!(map.get("beta"), Some(&2));
    assert_eq!(map.insert("alpha", 10), Some(1));
    assert_eq!(map.get("alpha"), Some(&10));
    assert_eq!(map.remove("alpha"), Some(10));
    assert!(map.get("alpha").is_none());
    assert_eq!(map.remove("alpha"), None);
    assert_eq!(map.get("beta"), Some(&2));
}

#[test]
fn key_map_survives_growth() {
    let mut map: KeyMap<u32> = KeyMap::with_capacity(2);
    let names = ["one", "two", "three", "four", "five", "six", "seven", "eight"];
    for (i, name) in names.iter().enumerate() {
        map.insert(name, i as u32);
    }
    for (i, name) in names.iter().enumerate() {
        assert_eq!(map.get(name), Some(&(i as u32)));
    }
}

#[test]
fn key_map_reclaims_removed_slots_in_place() {
    let mut map: KeyMap<u32> = KeyMap::new();
    map.insert("gone", 1);
    map.insert("kept", 2);
    map.remove("gone");
    map.insert("back", 3);
    assert_eq!(map.get("back"), Some(&3));
    assert_eq!(map.get("kept"), Some(&2));
    assert!(map.get("gone").is_none());
}

#[test]
fn key_map_remove_clears_a_colliding_key() {
    // reclaimed slots sit between live entries on the chain; a remove
    // still hands back the looked-up value and clears the key outright
    let mut map: KeyMap<u32> = KeyMap::new();
    map.insert("a", 1);
    map.insert("c", 2);
    map.remove("c");
    map.insert("a", 3);
    assert_eq!(map.get("a"), Some(&3));
    assert_eq!(map.remove("a"), Some(3));
    assert!(map.get("a").is_none());
    assert_eq!(map.get("c"), None);
}

#[test]
fn store_hands_out_sequential_handles() {
    let mut store: Store<Player, String> = Store::new();
    let a = store.push("first".to_string());
    let b = store.push("second".to_string());
    assert_eq!((a.0, b.0), (0, 1));
    assert_eq!(store.len(), 2);
    assert_eq!(*store.get(b), "second".to_string());
    assert_eq!(store.values().len(), 2);
    let keys = store.keys();
    assert_eq!(keys, vec![a, b]);
}

#[test]
fn table_finds_values_by_name() {
    let mut table: Table<Player, u64> = Table::new();
    assert!(table.get("missing").is_none());
    table.insert("x", 100);
    table.insert("y", 200);
    assert_eq!(table.len(), 2);
    assert_eq!(table.get("x"), Some(&100));
    assert_eq!(table.get("y"), Some(&200));
    assert!(table.get("z").is_none());
}

#[test]
fn unverified_guards_the_invalid_marker() {
    let good: Unverified<Player> = Unverified::valid(Player(4));
    assert!(good.is_verified());
    assert_eq!(good.into_option(), Some(Player(4)));
    let bad: Unverified<Player> = Unverified::invalid();
    assert!(bad.is_invalid());
    assert_eq!(bad.into_option(), None);
}

#[test]
fn mapping_reads_and_writes_cells() {
    let mut grid = Mapping::new(3, 4);
    assert!(grid.valid(0, 0));
    assert!(grid.valid(3, 2));
    assert!(!grid.valid(4, 0));
    assert!(!grid.valid(0, 3));
    assert_eq!(grid.get((1, 1)), UNEXPLORED);
    grid.set((1, 1), 7);
    assert_eq!(grid.get((1, 1)), 7);
}

#[test]
fn mapping_next_step_descends_toward_small_distances() {
    let mut grid = Mapping::new(3, 3);
    grid.set((1, 0), 0);
    grid.set((1, 2), 5);
    // from the centre, the cheaper explored neighbour wins
    assert_eq!(grid.next_step(1, 1), (1, 0));
    // with no explored neighbour the walker stays put
    let lonely = Mapping::new(3, 3);
    assert_eq!(lonely.next_step(1, 1), (1, 1));
}

#[test]
fn teams_flood_fill_and_step_home() {
    let mut finder = InnerPathFinder::new();
    assert!(finder.defined_mapping().is_none());
    let home = Team::new(0, 0, Mapping::new(4, 4));
    let id = finder.create_team(home);
    assert_eq!(id, TeamId(0));
    assert!(finder.defined_mapping().is_some());
    assert!(finder.remap());
    // a cell next to home steps toward it
    let step = finder.next_step(id, 1, 1);
    assert_ne!(step, (1, 1));

    // freed team slots are reused before growing
    let taken = finder.remove_team(id);
    assert_eq!(taken.location, (0, 0));
    let again = finder.create_team(Team::new(2, 2, Mapping::new(4, 4)));
    assert_eq!(again, TeamId(0));
}

#[test]
fn placing_a_blocking_cell_can_be_refused() {
    let mut finder = InnerPathFinder::new();
    let id = finder.create_team(Team::new(0, 0, Mapping::new(1, 2)));
    assert!(finder.remap());
    // blocking the only neighbour cuts the team off, so the change is
    // refused and backed out
    assert!(!finder.place((1, 0)));
    assert!(finder.remap());
    let _ = id;
}
