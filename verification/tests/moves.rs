use cornelius::get_move;
use cornelius::moves::is_movable;
use cornelius::{Battlesnake, Board, Coord};

#[test]
fn test_get_move() {
    let head = Coord { x: 9, y: 9 };
    let me = Battlesnake {
        body: vec![head.left()],
        head,
        ..Default::default()
    };
    let board = Board {
        height: 10,
        width: 10,
        snakes: vec![me.clone()],
        ..Default::default()
    };
    let get_move = get_move(&board, &me);
    assert_eq!(get_move, "down");
}

#[test]
fn of_equal_scores_the_first_direction_wins() {
    let me = Battlesnake {
        head: Coord { x: 5, y: 5 },
        ..Default::default()
    };
    let board = Board {
        width: 11,
        height: 11,
        ..Default::default()
    };
    assert_eq!(get_move(&board, &me), "up");
}

#[test]
fn down_comes_before_left_and_left_before_right() {
    let mut me = Battlesnake {
        head: Coord { x: 5, y: 5 },
        body: vec![Coord { x: 5, y: 6 }],
        ..Default::default()
    };
    let mut board = Board {
        width: 11,
        height: 11,
        snakes: vec![me.clone()],
        ..Default::default()
    };
    assert_eq!(get_move(&board, &me), "down");
    me.body = vec![Coord { x: 5, y: 6 }, Coord { x: 5, y: 4 }];
    board.snakes = vec![me.clone()];
    assert_eq!(get_move(&board, &me), "left");
    me.body = vec![Coord { x: 5, y: 6 }, Coord { x: 5, y: 4 }, Coord { x: 4, y: 5 }];
    board.snakes = vec![me.clone()];
    assert_eq!(get_move(&board, &me), "right");
}

#[test]
fn food_draws_the_snake() {
    let me = Battlesnake {
        head: Coord { x: 5, y: 5 },
        ..Default::default()
    };
    let mut board = Board {
        width: 11,
        height: 11,
        food: vec![Coord { x: 6, y: 5 }],
        snakes: vec![me.clone()],
        ..Default::default()
    };
    assert_eq!(get_move(&board, &me), "right");
    board.food = vec![Coord { x: 4, y: 5 }, Coord { x: 6, y: 5 }];
    assert_eq!(get_move(&board, &me), "left");
    board.food = vec![Coord { x: 5, y: 4 }];
    assert_eq!(get_move(&board, &me), "down");
}

#[test]
fn there_is_a_move_where_every_direction_is_fatal() {
    let me = Battlesnake {
        head: Coord { x: 0, y: 0 },
        body: vec![Coord { x: 0, y: 1 }, Coord { x: 1, y: 0 }],
        ..Default::default()
    };
    let board = Board {
        width: 11,
        height: 11,
        snakes: vec![me.clone()],
        ..Default::default()
    };
    // Up and right are collisions at -179, down and left the wall at -180.
    assert_eq!(get_move(&board, &me), "up");
    let boxed_in = Battlesnake {
        head: Coord { x: 0, y: 0 },
        body: vec![Coord { x: 1, y: 0 }],
        ..Default::default()
    };
    let board = Board {
        width: 11,
        height: 1,
        snakes: vec![boxed_in.clone()],
        ..Default::default()
    };
    // Up, down and left are the wall; right is a collision.
    assert_eq!(get_move(&board, &boxed_in), "right");
}

#[test]
fn the_snake_keeps_away_from_a_longer_head() {
    let me = Battlesnake {
        id: "me".to_string(),
        head: Coord { x: 5, y: 5 },
        length: 3,
        ..Default::default()
    };
    let other = Battlesnake {
        id: "other".to_string(),
        head: Coord { x: 5, y: 7 },
        length: 5,
        ..Default::default()
    };
    let board = Board {
        width: 11,
        height: 11,
        snakes: vec![me.clone(), other],
        ..Default::default()
    };
    assert_eq!(get_move(&board, &me), "down");
}

#[test]
fn a_move_needs_room_for_the_four_neighbours() {
    let mut me = Battlesnake::default();
    assert!(is_movable(&me));
    me.head = Coord { x: i32::MAX - 1, y: i32::MIN + 1 };
    assert!(is_movable(&me));
    me.head = Coord { x: i32::MAX, y: 0 };
    assert!(!is_movable(&me));
    me.head = Coord { x: i32::MIN, y: 0 };
    assert!(!is_movable(&me));
    me.head = Coord { x: 0, y: i32::MAX };
    assert!(!is_movable(&me));
    me.head = Coord { x: 0, y: i32::MIN };
    assert!(!is_movable(&me));
}

#[test]
fn a_move_needs_a_health_whose_scores_fit() {
    let mut me = Battlesnake::default();
    me.health = i32::MAX;
    assert!(!is_movable(&me));
    me.health = i32::MIN;
    assert!(!is_movable(&me));
    me.health = 0;
    assert!(is_movable(&me));
}
