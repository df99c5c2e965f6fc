use cornelius::spot_might_have_snake;
use cornelius::{Battlesnake, Coord};

#[test]
fn logic_no_snakes_in_spot() {
    let me = Battlesnake {
        id: "me".to_string(),
        name: "CorneliusCodes".to_string(),
        head: Coord { x: 7, y: 6 },
        length: 3,
        ..Default::default()
    };
    let hettie = Battlesnake {
        id: "hettie".to_string(),
        name: "Hettie".to_string(),
        head: Coord { x: 0, y: 0 },
        length: 4,
        ..Default::default()
    };
    let snakes = vec![hettie, me.clone()];
    let spot = Coord { x: 5, y: 7 };
    assert!(!spot_might_have_snake(&spot, &snakes, &me));
}

#[test]
fn larger_snake_head_right_of_spot() {
    let me = Battlesnake {
        id: "me".to_string(),
        name: "CorneliusCodes".to_string(),
        head: Coord { x: 7, y: 6 },
        length: 3,
        ..Default::default()
    };
    let head = Coord { x: 3, y: 5 };
    let hettie = Battlesnake {
        id: "hettie".to_string(),
        name: "HettieCodes".to_string(),
        head,
        length: 4,
        ..Default::default()
    };
    let snakes = vec![hettie];
    let spot = head.right();
    assert!(spot_might_have_snake(&spot, &snakes, &me));
}

#[test]
fn larger_snake_head_left_of_spot() {
    let me = Battlesnake {
        id: "me".to_string(),
        name: "CorneliusCodes".to_string(),
        head: Coord { x: 7, y: 6 },
        length: 3,
        ..Default::default()
    };
    let head = Coord { x: 3, y: 5 };
    let hettie = Battlesnake {
        id: "hettie".to_string(),
        name: "HettieCodes".to_string(),
        head,
        length: 4,
        ..Default::default()
    };
    let snakes = vec![hettie];
    let spot = head.left();
    assert!(spot_might_have_snake(&spot, &snakes, &me));
}

#[test]
fn same_size_snake_head_above_spot() {
    let me = Battlesnake {
        id: "me".to_string(),
        name: "CorneliusCodes".to_string(),
        head: Coord { x: 7, y: 6 },
        length: 3,
        ..Default::default()
    };
    let head = Coord { x: 3, y: 5 };
    let hettie = Battlesnake {
        id: "hettie".to_string(),
        name: "HettieCodes".to_string(),
        head,
        length: 3,
        ..Default::default()
    };
    let snakes = vec![hettie];
    let spot = head.down();
    assert!(spot_might_have_snake(&spot, &snakes, &me));
}

#[test]
fn same_size_snake_head_below_spot() {
    let me = Battlesnake {
        id: "me".to_string(),
        name: "CorneliusCodes".to_string(),
        head: Coord { x: 7, y: 6 },
        length: 3,
        ..Default::default()
    };
    let head = Coord { x: 3, y: 5 };
    let hettie = Battlesnake {
        id: "hettie".to_string(),
        name: "HettieCodes".to_string(),
        head,
        length: 3,
        ..Default::default()
    };
    let snakes = vec![hettie];
    let spot = head.up();
    assert!(spot_might_have_snake(&spot, &snakes, &me));
}

#[test]
fn smaller_snake_head_next_to_spot() {
    let me = Battlesnake {
        id: "me".to_string(),
        name: "CorneliusCodes".to_string(),
        head: Coord { x: 7, y: 6 },
        length: 4,
        ..Default::default()
    };
    let head = Coord { x: 3, y: 5 };
    let hettie = Battlesnake {
        id: "hettie".to_string(),
        name: "HettieCodes".to_string(),
        head,
        length: 3,
        ..Default::default()
    };
    let snakes = vec![hettie];
    let spot = head.right();
    assert!(!spot_might_have_snake(&spot, &snakes, &me));
}

#[test]
fn i_am_next_to_spot() {
    let head = Coord { x: 3, y: 5 };
    let me = Battlesnake {
        id: "me".to_string(),
        name: "CorneliusCodes".to_string(),
        head,
        ..Default::default()
    };
    let snakes = vec![me.clone()];
    let spot = head.right();
    assert!(!spot_might_have_snake(&spot, &snakes, &me));
}

#[test]
fn shorter_snakes_and_my_own_head_threaten_no_cell() {
    let me = Battlesnake {
        id: "me".to_string(),
        head: Coord { x: 5, y: 5 },
        length: 6,
        ..Default::default()
    };
    let small = Battlesnake {
        id: "small".to_string(),
        head: Coord { x: 7, y: 5 },
        length: 5,
        ..Default::default()
    };
    let tiny = Battlesnake {
        id: "tiny".to_string(),
        head: Coord { x: 5, y: 7 },
        length: 1,
        ..Default::default()
    };
    let snakes = vec![small, me.clone(), tiny];
    for x in 3..10 {
        for y in 3..10 {
            assert!(!spot_might_have_snake(&Coord { x, y }, &snakes, &me));
        }
    }
}

#[test]
fn the_head_cell_and_diagonals_are_not_threatened() {
    let me = Battlesnake {
        id: "me".to_string(),
        length: 3,
        ..Default::default()
    };
    let head = Coord { x: 3, y: 5 };
    let hettie = Battlesnake {
        id: "hettie".to_string(),
        head,
        length: 3,
        ..Default::default()
    };
    let snakes = vec![hettie];
    assert!(!spot_might_have_snake(&head, &snakes, &me));
    assert!(!spot_might_have_snake(&Coord { x: 4, y: 6 }, &snakes, &me));
    assert!(!spot_might_have_snake(&Coord { x: 2, y: 4 }, &snakes, &me));
    assert!(!spot_might_have_snake(&Coord { x: 5, y: 5 }, &snakes, &me));
}

#[test]
fn a_head_at_the_end_of_the_range_threatens_its_neighbours_only() {
    let me = Battlesnake {
        id: "me".to_string(),
        length: 3,
        ..Default::default()
    };
    let head = Coord { x: i32::MAX, y: i32::MIN };
    let hettie = Battlesnake {
        id: "hettie".to_string(),
        head,
        length: 3,
        ..Default::default()
    };
    let snakes = vec![hettie];
    assert!(spot_might_have_snake(&Coord { x: i32::MAX - 1, y: i32::MIN }, &snakes, &me));
    assert!(spot_might_have_snake(&Coord { x: i32::MAX, y: i32::MIN + 1 }, &snakes, &me));
    assert!(!spot_might_have_snake(&Coord { x: i32::MIN, y: i32::MIN }, &snakes, &me));
    assert!(!spot_might_have_snake(&Coord { x: i32::MAX, y: i32::MAX }, &snakes, &me));
}
