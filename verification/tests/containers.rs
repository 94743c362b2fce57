use battilde::dice::Dice;
use battilde::grid::Grid;
use battilde::holder::Holder;
use battilde::pos::{Direction, Pos};
use battilde::posmap::PosMap;
use battilde::util::Percentage;

#[test]
fn grid_knows_its_cells() {
    let mut grid = Grid::new(Pos::new(3, 2), 0u8);
    assert_eq!(grid.size(), Pos::new(3, 2));
    assert_eq!(grid.get(Pos::new(0, 0)), Some(&0));
    assert_eq!(grid.get(Pos::new(2, 1)), Some(&0));
    assert_eq!(grid.get(Pos::new(3, 0)), None);
    assert_eq!(grid.get(Pos::new(0, 2)), None);
    assert_eq!(grid.get(Pos::new(-1, 0)), None);
    assert_eq!(grid.get(Pos::new(0, -1)), None);
    assert!(grid.holds(Pos::new(2, 1)));
    assert!(!grid.holds(Pos::new(2, 2)));
    grid.set_unchecked(Pos::new(2, 0), 7);
    grid.set_unchecked(Pos::new(0, 1), 9);
    assert_eq!(*grid.get_unchecked(Pos::new(2, 0)), 7);
    assert_eq!(*grid.get_unchecked(Pos::new(0, 1)), 9);
    assert_eq!(*grid.get_unchecked(Pos::new(1, 0)), 0);
    assert_eq!(*grid.get_unchecked(Pos::new(2, 1)), 0);
}

#[test]
fn grid_set_ignores_what_lies_outside() {
    let mut grid = Grid::new(Pos::new(2, 2), 'a');
    assert!(grid.set(Pos::new(1, 1), 'b'));
    assert!(!grid.set(Pos::new(2, 1), 'c'));
    assert!(!grid.set(Pos::new(-1, 0), 'c'));
    assert_eq!(grid.get(Pos::new(1, 1)), Some(&'b'));
    assert_eq!(grid.get(Pos::new(0, 1)), Some(&'a'));
    assert_eq!(grid.get(Pos::new(1, 0)), Some(&'a'));
    let copy = grid.copy();
    assert_eq!(copy.size(), Pos::new(2, 2));
    assert_eq!(copy.get(Pos::new(1, 1)), Some(&'b'));
    assert_eq!(copy.get(Pos::new(0, 0)), Some(&'a'));
}

#[test]
fn empty_grid_has_no_cell() {
    let grid: Grid<u8> = Grid::empty();
    assert_eq!(grid.size(), Pos::new(0, 0));
    assert_eq!(grid.get(Pos::new(0, 0)), None);
    let flat: Grid<u8> = Grid::new(Pos::new(0, 5), 1);
    assert_eq!(flat.get(Pos::new(0, 0)), None);
}

#[test]
fn holder_gives_growing_keys() {
    let mut holder: Holder<&str> = Holder::new();
    assert_eq!(holder.len(), 0);
    assert_eq!(holder.last_key(), 1);
    let a = holder.insert("a");
    let b = holder.insert("b");
    let c = holder.insert("c");
    assert_eq!((a, b, c), (2, 3, 4));
    assert_eq!(holder.len(), 3);
    assert_eq!(holder.keys(), vec![2, 3, 4]);
    assert_eq!(holder.values(), vec![&"a", &"b", &"c"]);
    assert_eq!(holder.iter(), vec![(2, &"a"), (3, &"b"), (4, &"c")]);
    assert_eq!(holder.get(&3), Some(&"b"));
    assert_eq!(holder.get(&0), None);
    assert_eq!(holder.get(&1), None);
    assert_eq!(holder.get(&5), None);
    assert!(holder.contains_key(&4));
    assert!(!holder.contains_key(&9));
    assert_eq!(holder.position(4), Some(2));
    assert_eq!(holder.key_at(1), 3);
    assert_eq!(*holder.value_at(1), "b");
}

#[test]
fn holder_never_gives_a_key_twice() {
    let mut holder: Holder<u8> = Holder::new();
    let a = holder.insert(1);
    let b = holder.insert(2);
    assert_eq!(holder.remove(&b), Some(2));
    assert_eq!(holder.remove(&b), None);
    let c = holder.insert(3);
    assert_ne!(c, b);
    assert_eq!(c, 4);
    assert_eq!(holder.keys(), vec![a, c]);
    holder.clear();
    assert_eq!(holder.len(), 0);
    assert_eq!(holder.insert(4), 5);
}

#[test]
fn holder_remove_keeps_the_order() {
    let mut holder: Holder<char> = Holder::new();
    for c in vec!['a', 'b', 'c', 'd'] {
        holder.insert(c);
    }
    assert_eq!(holder.remove(&3), Some('b'));
    assert_eq!(holder.keys(), vec![2, 4, 5]);
    assert_eq!(holder.values(), vec![&'a', &'c', &'d']);
    assert!(!holder.contains_key(&3));
}

#[test]
fn holder_values_can_be_changed_in_place() {
    let mut holder: Holder<i32> = Holder::new();
    let a = holder.insert(10);
    let b = holder.insert(20);
    *holder.get_mut(&a).unwrap() += 1;
    *holder.value_at_mut(1) += 2;
    assert!(holder.get_mut(&99).is_none());
    assert_eq!(holder.get(&a), Some(&11));
    assert_eq!(holder.get(&b), Some(&22));
}

#[test]
fn posmap_maps_positions() {
    let mut map: PosMap<u8> = PosMap::new();
    assert_eq!(map.len(), 0);
    map.insert(Pos::new(1, 2), 5);
    map.insert(Pos::new(-3, 4), 6);
    map.insert(Pos::new(1, 2), 7);
    assert_eq!(map.len(), 2);
    assert_eq!(map.get(Pos::new(1, 2)), Some(&7));
    assert_eq!(map.get(Pos::new(-3, 4)), Some(&6));
    assert_eq!(map.get(Pos::new(2, 1)), None);
    assert!(map.contains_key(Pos::new(-3, 4)));
    assert_eq!(map.key_at(0), Pos::new(1, 2));
    assert_eq!(*map.value_at(1), 6);
    assert_eq!(map.position(Pos::new(-3, 4)), Some(1));
    *map.get_mut(Pos::new(-3, 4)).unwrap() = 60;
    assert_eq!(map.remove(Pos::new(1, 2)), Some(7));
    assert_eq!(map.remove(Pos::new(1, 2)), None);
    assert_eq!(map.get(Pos::new(1, 2)), None);
    assert_eq!(map.get(Pos::new(-3, 4)), Some(&60));
    assert_eq!(map.len(), 1);
    map.clear();
    assert_eq!(map.len(), 0);
    assert!(!map.contains_key(Pos::new(-3, 4)));
}

#[test]
fn dice_roll_within_the_range() {
    let mut dice = Dice::seeded(42);
    let mut seen = vec![false; 10];
    for _ in 0..500 {
        let r = dice.roll(-3, 6);
        assert!(-3 <= r && r <= 6);
        seen[(r + 3) as usize] = true;
    }
    assert_eq!(seen, vec![true; 10]);
    assert_eq!(dice.roll(8, 8), 8);
}

#[test]
fn dice_index_is_a_place_in_the_list() {
    let mut dice = Dice::seeded(42);
    let mut seen = vec![false; 4];
    for _ in 0..200 {
        seen[dice.index(4)] = true;
    }
    assert_eq!(seen, vec![true; 4]);
    assert_eq!(dice.index(1), 0);
}

#[test]
fn dice_from_one_seed_agree() {
    let mut a = Dice::seeded(7);
    let mut b = Dice::seeded(7);
    let mut c = Dice::seeded(8);
    let mut differs = false;
    for _ in 0..50 {
        let x = a.roll(0, 1000);
        assert_eq!(x, b.roll(0, 1000));
        if x != c.roll(0, 1000) {
            differs = true;
        }
    }
    assert!(differs);
}

#[test]
fn dice_coin_falls_both_ways() {
    let mut dice = Dice::seeded(1);
    let mut heads = 0;
    for _ in 0..400 {
        if dice.coin() {
            heads += 1;
        }
    }
    assert!(heads > 120 && heads < 280);
}

#[test]
fn dice_chance_follows_the_percentage() {
    let mut dice = Dice::seeded(1);
    let mut hits = 0;
    for _ in 0..1000 {
        assert!(!dice.chance(Percentage(0)));
        assert!(dice.chance(Percentage(100)));
        assert!(!dice.chance(Percentage(-5)));
        assert!(dice.chance(Percentage(250)));
        if dice.chance(Percentage(20)) {
            hits += 1;
        }
    }
    assert!(hits > 120 && hits < 280);
}

#[test]
fn dice_shuffle_keeps_the_directions() {
    let mut dice = Dice::seeded(3);
    let sorted = vec![Direction::North, Direction::South, Direction::East, Direction::West];
    let mut changed = 0;
    for _ in 0..50 {
        let mut dirs = sorted.clone();
        dice.shuffle(&mut dirs);
        assert_eq!(dirs.len(), 4);
        for d in &sorted {
            assert_eq!(dirs.iter().filter(|x| *x == d).count(), 1);
        }
        if dirs != sorted {
            changed += 1;
        }
    }
    assert!(changed > 30);
    let mut none: Vec<Direction> = Vec::new();
    dice.shuffle(&mut none);
    assert!(none.is_empty());
}
