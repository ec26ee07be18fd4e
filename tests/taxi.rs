use arcade::taxi::{Dir, Game, Object, WORLD_HEIGHT, WORLD_WIDTH};

fn drive(g: &mut Game, path: &str) -> bool {
    let mut won = false;
    for ch in path.chars() {
        let d = match ch {
            'U' => Dir::Up,
            'R' => Dir::Right,
            'D' => Dir::Down,
            _ => Dir::Left,
        };
        won = g.enter_move(d);
    }
    won
}

#[test]
fn taxi_directions_from_numbers() {
    assert_eq!(Dir::from_u32(0), Ok(Dir::Up));
    assert_eq!(Dir::from_u32(1), Ok(Dir::Right));
    assert_eq!(Dir::from_u32(2), Ok(Dir::Down));
    assert_eq!(Dir::from_u32(3), Ok(Dir::Left));
    assert!(Dir::from_u32(4).is_err());
    assert!(Dir::from_u32(u32::MAX).is_err());
}

#[test]
fn yard_size() {
    let g = Game::new();
    assert_eq!(g.world_size(), (11, 11));
}

#[test]
fn new_game_places_passenger_and_goal_on_their_spots() {
    let passengers = [(3, 4), (4, 8), (6, 1), (6, 8)];
    let goals = [(8, 8), (1, 2), (1, 8), (8, 1)];
    for _ in 0..20 {
        let g = Game::new();
        assert_eq!(g.player_position(), (1, 1));
        assert!(!g.passenger_picked_up());
        assert!(!g.has_won());
        assert_eq!(g.moves(), 0);
        let mut seen_passenger = None;
        let mut seen_goal = None;
        for r in 0..WORLD_HEIGHT {
            for c in 0..WORLD_WIDTH {
                match g.object_at(r, c) {
                    Object::Passenger => seen_passenger = Some((r as u32, c as u32)),
                    Object::Goal => seen_goal = Some((r as u32, c as u32)),
                    _ => {}
                }
            }
        }
        assert!(passengers.contains(&seen_passenger.unwrap()));
        assert!(goals.contains(&seen_goal.unwrap()));
    }
}

#[test]
fn spots_by_index() {
    let g = Game::with_spots(2, 1);
    assert_eq!(g.object_at(6, 1), Object::Passenger);
    assert_eq!(g.object_at(1, 2), Object::Goal);
    assert_eq!(g.object_at(0, 5), Object::Wall);
    assert_eq!(g.object_at(10, 10), Object::Wall);
    assert_eq!(g.object_at(5, 5), Object::Empty);
}

#[test]
fn walls_stop_the_taxi() {
    let mut g = Game::with_spots(0, 0);
    assert!(!g.enter_move(Dir::Up));
    assert_eq!(g.player_position(), (1, 1));
    g.make_move(Dir::Left);
    assert_eq!(g.player_position(), (1, 1));
    assert_eq!(g.moves(), 2);
}

#[test]
fn pick_up_and_deliver() {
    let mut g = Game::with_spots(0, 0);
    assert!(!drive(&mut g, "DDRR"));
    assert_eq!(g.player_position(), (3, 3));
    assert!(!g.passenger_picked_up());
    assert!(!drive(&mut g, "R"));
    assert_eq!(g.player_position(), (3, 4));
    assert!(g.passenger_picked_up());
    assert_eq!(g.object_at(3, 4), Object::Empty);
    assert!(!drive(&mut g, "DDDDDRRR"));
    assert_eq!(g.player_position(), (8, 7));
    assert!(drive(&mut g, "R"));
    assert!(g.has_won());
    assert_eq!(g.moves(), 14);
}

#[test]
fn goal_without_passenger_does_not_win() {
    let mut g = Game::with_spots(0, 1);
    assert!(!drive(&mut g, "R"));
    assert_eq!(g.player_position(), (1, 2));
    assert!(!g.has_won());
    assert_eq!(g.object_at(1, 2), Object::Goal);
}

#[test]
fn taxi_clone_keeps_the_state() {
    let mut g = Game::with_spots(3, 2);
    drive(&mut g, "DR");
    let h = g.clone();
    assert!(h == g);
    assert_eq!(h.player_position(), (2, 2));
}
