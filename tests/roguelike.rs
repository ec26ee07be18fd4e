use arcade::roguelike::{Action, Dir, Game, Object, COL_SIZE, ROW_SIZE};

fn walk(g: &mut Game, path: &str) -> bool {
    let mut won = false;
    for ch in path.chars() {
        let d = match ch {
            'U' => Dir::Up,
            'R' => Dir::Right,
            'D' => Dir::Down,
            _ => Dir::Left,
        };
        won = g.enter_move(&d);
    }
    won
}

#[test]
fn roguelike_directions_from_numbers() {
    assert_eq!(Dir::from_u32(&0), Dir::Up);
    assert_eq!(Dir::from_u32(&1), Dir::Right);
    assert_eq!(Dir::from_u32(&2), Dir::Down);
    assert_eq!(Dir::from_u32(&3), Dir::Left);
    assert_eq!(Dir::from_u32(&17), Dir::Left);
}

#[test]
fn new_game_starts_at_the_bottom_left() {
    let g = Game::new();
    assert_eq!(g.position, (17, 4));
    assert_eq!(g.get_moves(), 0);
    assert_eq!(g.get_score(), 0);
    assert_eq!(g.action, Action::Nothing);
    assert!(!g.has_won());
}

#[test]
fn map_is_walled_and_holds_the_goal() {
    let g = Game::new();
    for c in 0..COL_SIZE {
        assert_eq!(g.object_at(0, c), Object::Wall);
        assert_eq!(g.object_at(ROW_SIZE - 1, c), Object::Wall);
    }
    for r in 0..ROW_SIZE {
        assert_eq!(g.object_at(r, 0), Object::Wall);
        assert_eq!(g.object_at(r, COL_SIZE - 1), Object::Wall);
    }
    assert_eq!(g.object_at(1, 21), Object::Goal);
    assert_eq!(g.object_at(13, 2), Object::Gold);
    assert_eq!(g.object_at(17, 25), Object::Sword);
    assert_eq!(g.object_at(13, 11), Object::Enemy);
}

#[test]
fn walking_into_a_wall_counts_but_does_not_move() {
    let mut g = Game::new();
    assert!(!g.enter_move(&Dir::Down));
    assert_eq!(g.position, (17, 4));
    assert_eq!(g.action, Action::WalkedIntoWall);
    assert_eq!(g.get_moves(), 1);
}

#[test]
fn walking_on_floor() {
    let mut g = Game::new();
    walk(&mut g, "URR");
    assert_eq!(g.position, (16, 6));
    assert_eq!(g.action, Action::Nothing);
    assert_eq!(g.get_moves(), 3);
    assert_eq!(g.get_score(), 0);
}

#[test]
fn enemy_dies_on_the_second_hit_in_a_row() {
    let mut g = Game::new();
    walk(&mut g, "URRRRRRRUU");
    assert_eq!(g.position, (14, 11));
    walk(&mut g, "U");
    assert_eq!(g.action, Action::AttackedEnemy(13, 11));
    assert_eq!(g.position, (14, 11));
    assert_eq!(g.get_score(), 0);
    walk(&mut g, "U");
    assert_eq!(g.action, Action::KilledEnemy(13, 11));
    assert_eq!(g.position, (13, 11));
    assert_eq!(g.get_score(), 20);
    assert_eq!(g.object_at(13, 11), Object::Empty);
}

#[test]
fn enemy_survives_hits_that_are_not_in_a_row() {
    let mut g = Game::new();
    walk(&mut g, "URRRRRRRUUU");
    assert_eq!(g.action, Action::AttackedEnemy(13, 11));
    walk(&mut g, "DUU");
    assert_eq!(g.action, Action::AttackedEnemy(13, 11));
    assert_eq!(g.get_score(), 0);
    assert_eq!(g.object_at(13, 11), Object::Enemy);
}

#[test]
fn gold_is_picked_up() {
    let mut g = Game::new();
    walk(&mut g, "URRRRRRRUUUULLLLLLLLL");
    assert_eq!(g.position, (13, 2));
    assert_eq!(g.action, Action::PickedGold(13, 2));
    assert_eq!(g.get_score(), 50);
    assert_eq!(g.object_at(13, 2), Object::Empty);
    assert_eq!(g.get_moves(), 21);
}

#[test]
fn sword_kills_in_one_hit() {
    let mut g = Game::new();
    walk(&mut g, "URRRRRRRUUUUUUURRRRRRRRRRRRRDDDRRDDDD");
    assert_eq!(g.position, (17, 25));
    assert_eq!(g.action, Action::PickedSword(17, 25));
    assert_eq!(g.get_score(), 40);
    walk(&mut g, "UUUULLUU");
    assert_eq!(g.position, (11, 23));
    walk(&mut g, "L");
    assert_eq!(g.action, Action::KilledEnemy(11, 22));
    assert_eq!(g.position, (11, 22));
    assert_eq!(g.get_score(), 60);
}

#[test]
fn reaching_the_goal_wins() {
    let mut g = Game::new();
    let path = "URRRRRRRUUUUUUURRRRUUUUUUUURRRUURRR";
    let (rest, last) = path.split_at(path.len() - 1);
    assert!(!walk(&mut g, rest));
    assert!(!g.has_won());
    assert!(walk(&mut g, last));
    assert!(g.has_won());
    assert_eq!(g.action, Action::Won);
    assert_eq!(g.position, (1, 21));
    assert_eq!(g.get_moves(), 35);
}

#[test]
fn roguelike_clone_keeps_the_state() {
    let mut g = Game::new();
    walk(&mut g, "URR");
    let h = g.clone();
    assert!(h == g);
    assert_eq!(h.position, (16, 6));
    assert_eq!(h.get_moves(), 3);
}
