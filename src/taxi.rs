//! A taxi world: the player drives through an 11x11 walled yard, picks up a
//! passenger and wins by bringing them to the goal.

use vstd::prelude::*;

use crate::random::random_below;

verus! {

/// Number of columns of the yard.
pub const WORLD_WIDTH: usize = 11;

/// Number of rows of the yard.
pub const WORLD_HEIGHT: usize = 11;

/// Number of places where a passenger or a goal may stand.
pub const N_SPOTS: usize = 4;

/// Move directions.
#[derive(PartialEq, Eq, Structural, Hash, Clone, Copy, Debug)]
pub enum Dir {
    Up,
    Right,
    Down,
    Left,
}

/// The direction numbered `n`, for `n` below 4: up, right, down, left.
pub open spec fn dir_of(n: u32) -> Dir {
    if n == 0 {
        Dir::Up
    } else if n == 1 {
        Dir::Right
    } else if n == 2 {
        Dir::Down
    } else {
        Dir::Left
    }
}

impl Dir {
    /// Turns a number into a direction; numbers from 4 on name none.
    pub fn from_u32(n: u32) -> (r: Result<Dir, &'static str>)
        ensures
            n < 4 ==> r == Ok::<Dir, &'static str>(dir_of(n)),
            n >= 4 ==> r == Err::<Dir, &'static str>("Cannot convert u32 to `Dir`"),
    {
        match n {
            0 => Ok(Dir::Up),
            1 => Ok(Dir::Right),
            2 => Ok(Dir::Down),
            3 => Ok(Dir::Left),
            _ => Err("Cannot convert u32 to `Dir`"),
        }
    }
}

/// Things in the yard.
#[derive(PartialEq, Eq, Structural, Hash, Clone, Copy, Debug)]
pub enum Object {
    Wall,
    Passenger,
    Goal,
    Empty,
}

/// The objects of a yard, row by row.
pub type Yard = Seq<Seq<Object>>;

/// The objects held by a grid of rows.
pub open spec fn yard_of(world: Seq<Vec<Object>>) -> Yard {
    Seq::new(world.len(), |r: int| world[r]@)
}

/// A cell on the outer edge of the yard.
pub open spec fn on_edge(r: int, c: int) -> bool {
    r == 0 || r == WORLD_HEIGHT - 1 || c == 0 || c == WORLD_WIDTH - 1
}

/// The empty yard: walls around, floor inside.
pub open spec fn base_yard() -> Yard {
    Seq::new(
        WORLD_HEIGHT as nat,
        |r: int|
            Seq::new(
                WORLD_WIDTH as nat,
                |c: int|
                    if on_edge(r, c) {
                        Object::Wall
                    } else {
                        Object::Empty
                    },
            ),
    )
}

/// A yard of `WORLD_HEIGHT` rows of `WORLD_WIDTH` objects, walled all
/// around.
pub open spec fn walled(y: Yard) -> bool {
    &&& y.len() == WORLD_HEIGHT
    &&& forall|r: int| 0 <= r < WORLD_HEIGHT ==> #[trigger] y[r].len() == WORLD_WIDTH
    &&& forall|r: int, c: int|
        0 <= r < WORLD_HEIGHT && 0 <= c < WORLD_WIDTH && on_edge(r, c) ==> #[trigger] y[r][c]
            == Object::Wall
}

/// Where the passenger may wait, by index.
pub open spec fn passenger_spot(i: int) -> (u32, u32) {
    if i == 0 {
        (3, 4)
    } else if i == 1 {
        (4, 8)
    } else if i == 2 {
        (6, 1)
    } else {
        (6, 8)
    }
}

/// Where the goal may lie, by index.
pub open spec fn goal_spot(i: int) -> (u32, u32) {
    if i == 0 {
        (8, 8)
    } else if i == 1 {
        (1, 2)
    } else if i == 2 {
        (1, 8)
    } else {
        (8, 1)
    }
}

/// The yard with `x` at cell `t`.
pub open spec fn set_object(y: Yard, t: (int, int), x: Object) -> Yard {
    y.update(t.0, y[t.0].update(t.1, x))
}

/// A game as the rules see it.
pub struct GameView {
    pub yard: Yard,
    pub position: (u32, u32),
    pub passenger: (u32, u32),
    pub picked_up: bool,
    pub goal: (u32, u32),
    pub moves: u32,
}

/// A state of play: a walled yard with the player inside the walls.
pub open spec fn valid_state(s: GameView) -> bool {
    &&& walled(s.yard)
    &&& 0 < s.position.0 < WORLD_HEIGHT - 1
    &&& 0 < s.position.1 < WORLD_WIDTH - 1
}

/// The cell next to `p` in direction `dir`.
pub open spec fn target(p: (u32, u32), dir: Dir) -> (int, int) {
    match dir {
        Dir::Up => (p.0 - 1, p.1 as int),
        Dir::Right => (p.0 as int, p.1 + 1),
        Dir::Down => (p.0 + 1, p.1 as int),
        Dir::Left => (p.0 as int, p.1 - 1),
    }
}

/// The game after one move in direction `dir`: the move counts; a wall
/// stops the player; the passenger is picked up, leaving floor behind; the
/// goal and floor are driven onto.
pub open spec fn step(s: GameView, dir: Dir) -> GameView {
    let t = target(s.position, dir);
    let cell = (t.0 as u32, t.1 as u32);
    let counted = GameView { moves: (s.moves + 1) as u32, ..s };
    match s.yard[t.0][t.1] {
        Object::Wall => counted,
        Object::Passenger => GameView {
            yard: set_object(s.yard, t, Object::Empty),
            picked_up: true,
            position: cell,
            ..counted
        },
        _ => GameView { position: cell, ..counted },
    }
}

/// The yard walled and empty, with the passenger at spot `passenger` and the
/// goal at spot `goal`; returns it with those two cells.
fn simple_world(passenger: usize, goal: usize) -> (r: (Vec<Vec<Object>>, (u32, u32), (u32, u32)))
    requires
        passenger < N_SPOTS,
        goal < N_SPOTS,
    ensures
        yard_of(r.0@) == base_yard(),
        r.1 == passenger_spot(passenger as int),
        r.2 == goal_spot(goal as int),
{
    let mut w: Vec<Vec<Object>> = Vec::new();
    for r in 0..WORLD_HEIGHT
        invariant
            w.len() == r,
            forall|i: int| 0 <= i < r ==> (#[trigger] w@[i])@ == base_yard()[i],
    {
        let mut row: Vec<Object> = Vec::new();
        for c in 0..WORLD_WIDTH
            invariant
                r < WORLD_HEIGHT,
                row.len() == c,
                forall|j: int| 0 <= j < c ==> #[trigger] row@[j] == base_yard()[r as int][j],
        {
            if r == 0 || r == WORLD_HEIGHT - 1 || c == 0 || c == WORLD_WIDTH - 1 {
                row.push(Object::Wall);
            } else {
                row.push(Object::Empty);
            }
        }
        assert(row@ =~= base_yard()[r as int]);
        w.push(row);
    }
    assert(yard_of(w@) =~= base_yard());
    let passengers: Vec<(u32, u32)> = vec![(3, 4), (4, 8), (6, 1), (6, 8)];
    let goals: Vec<(u32, u32)> = vec![(8, 8), (1, 2), (1, 8), (8, 1)];
    (w, passengers[passenger], goals[goal])
}

/// The game at its start, with the passenger at spot `p` and the goal at
/// spot `q`, the player in the top left corner inside the walls.
pub open spec fn start(p: int, q: int) -> GameView {
    let pp = passenger_spot(p);
    let gg = goal_spot(q);
    let yard = set_object(
        set_object(base_yard(), (pp.0 as int, pp.1 as int), Object::Passenger),
        (gg.0 as int, gg.1 as int),
        Object::Goal,
    );
    GameView {
        yard,
        position: (1, 1),
        passenger: pp,
        picked_up: false,
        goal: gg,
        moves: 0,
    }
}

/// A game with its state.
#[derive(PartialEq, Eq, Hash)]
pub struct Game {
    /// The yard; the passenger's cell turns to floor once picked up.
    world: Vec<Vec<Object>>,
    /// Position of the player, as (row, column).
    position: (u32, u32),
    /// Where the passenger waits, as (row, column).
    passenger: (u32, u32),
    /// The passenger has been picked up.
    picked_up: bool,
    /// Where the passenger wants to go, as (row, column).
    goal: (u32, u32),
    /// Count of moves made.
    moves: u32,
}

impl View for Game {
    type V = GameView;

    closed spec fn view(&self) -> GameView {
        GameView {
            yard: yard_of(self.world@),
            position: self.position,
            passenger: self.passenger,
            picked_up: self.picked_up,
            goal: self.goal,
            moves: self.moves,
        }
    }
}


impl Clone for Game {
    fn clone(&self) -> (g: Game)
        ensures
            g@ == self@,
    {
        let mut world: Vec<Vec<Object>> = Vec::new();
        for r in 0..self.world.len()
            invariant
                world.len() == r,
                r <= self.world.len(),
                forall|i: int| 0 <= i < r ==> (#[trigger] world@[i])@ == self.world@[i]@,
        {
            world.push(self.world[r].clone());
            assert(world@[r as int]@ =~= self.world@[r as int]@);
        }
        assert(yard_of(world@) =~= yard_of(self.world@));
        Game {
            world,
            position: self.position,
            passenger: self.passenger,
            picked_up: self.picked_up,
            goal: self.goal,
            moves: self.moves,
        }
    }
}

impl Game {
    /// The game is in a state of play.
    pub open spec fn wf(&self) -> bool {
        valid_state(self@)
    }

    /// A new game: the passenger and the goal at spots drawn at random.
    pub fn new() -> (g: Game)
        ensures
            g.wf(),
            exists|p: int, q: int|
                0 <= p < N_SPOTS && 0 <= q < N_SPOTS && g@ == #[trigger] start(p, q),
    {
        let passenger = random_below(N_SPOTS);
        let goal = random_below(N_SPOTS);
        Game::with_spots(passenger, goal)
    }

    /// A new game with the passenger at spot `passenger` and the goal at
    /// spot `goal`.
    pub fn with_spots(passenger: usize, goal: usize) -> (g: Game)
        requires
            passenger < N_SPOTS,
            goal < N_SPOTS,
        ensures
            g.wf(),
            g@ == start(passenger as int, goal as int),
    {
        let (w, p, q) = simple_world(passenger, goal);
        let mut game = Game {
            world: w,
            position: (1, 1),
            passenger: p,
            picked_up: false,
            goal: q,
            moves: 0,
        };
        game.set_object_at(p.0 as usize, p.1 as usize, Object::Passenger);
        game.set_object_at(q.0 as usize, q.1 as usize, Object::Goal);
        game
    }

    fn set_object_at(&mut self, r: usize, c: usize, x: Object)
        requires
            yard_of(old(self).world@).len() == WORLD_HEIGHT,
            forall|i: int| 0 <= i < WORLD_HEIGHT ==>
                #[trigger] yard_of(old(self).world@)[i].len() == WORLD_WIDTH,
            r < WORLD_HEIGHT,
            c < WORLD_WIDTH,
        ensures
            final(self)@ == (GameView {
                yard: set_object(old(self)@.yard, (r as int, c as int), x),
                ..old(self)@
            }),
    {
        assert(yard_of(self.world@)[r as int] == self.world@[r as int]@);
        self.world[r][c] = x;
        assert(yard_of(self.world@) =~~= set_object(old(self)@.yard, (r as int, c as int), x));
    }

    /// Height and width of the yard.
    pub fn world_size(&self) -> (r: (usize, usize))
        ensures
            r == (WORLD_HEIGHT, WORLD_WIDTH),
    {
        (WORLD_HEIGHT, WORLD_WIDTH)
    }

    /// The player stands on the goal with the passenger aboard.
    pub fn has_won(&self) -> (r: bool)
        ensures
            r == (self@.position == self@.goal && self@.picked_up),
    {
        self.position.0 == self.goal.0 && self.position.1 == self.goal.1 && self.picked_up
    }

    /// Position of the player, as (row, column).
    pub fn player_position(&self) -> (r: (u32, u32))
        ensures
            r == self@.position,
    {
        self.position
    }

    /// The passenger has been picked up.
    pub fn passenger_picked_up(&self) -> (r: bool)
        ensures
            r == self@.picked_up,
    {
        self.picked_up
    }

    /// Count of moves made.
    pub fn moves(&self) -> (r: u32)
        ensures
            r == self@.moves,
    {
        self.moves
    }

    /// The object at row `r`, column `c`.
    pub fn object_at(&self, r: usize, c: usize) -> (x: Object)
        requires
            self.wf(),
            r < WORLD_HEIGHT,
            c < WORLD_WIDTH,
        ensures
            x == self@.yard[r as int][c as int],
    {
        assert(self@.yard[r as int] == self.world@[r as int]@);
        self.world[r][c]
    }

    /// Makes a move; returns whether the game is won after it.
    pub fn enter_move(&mut self, dir: Dir) -> (won: bool)
        requires
            old(self).wf(),
            old(self)@.moves < u32::MAX,
        ensures
            final(self).wf(),
            final(self)@ == step(old(self)@, dir),
            won == (final(self)@.position == final(self)@.goal && final(self)@.picked_up),
    {
        self.make_move(dir);
        self.has_won()
    }

    /// Makes a move by the rules of `step`.
    pub fn make_move(&mut self, dir: Dir)
        requires
            old(self).wf(),
            old(self)@.moves < u32::MAX,
        ensures
            final(self).wf(),
            final(self)@ == step(old(self)@, dir),
    {
        let ghost s = self@;
        self.moves = self.moves + 1;
        let target = match dir {
            Dir::Up => (self.position.0 - 1, self.position.1),
            Dir::Right => (self.position.0, self.position.1 + 1),
            Dir::Down => (self.position.0 + 1, self.position.1),
            Dir::Left => (self.position.0, self.position.1 - 1),
        };
        let ahead = self.object_at(target.0 as usize, target.1 as usize);
        proof {
            let y = s.yard;
            assert(y[target.0 as int][target.1 as int] == ahead);
            if on_edge(target.0 as int, target.1 as int) {
                assert(ahead == Object::Wall);
            }
        }
        match ahead {
            Object::Wall => {},
            Object::Goal => self.position = target,
            Object::Passenger => {
                self.picked_up = true;
                self.set_object_at(target.0 as usize, target.1 as usize, Object::Empty);
                self.position = target;
            },
            Object::Empty => {
                self.position = target;
            },
        }
        assert(self@ == step(s, dir));
    }
}

} // verus!
