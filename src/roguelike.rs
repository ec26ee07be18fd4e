//! A dungeon crawl on a fixed map: the player walks through empty floor,
//! picks up gold and a sword, fights enemies and wins by reaching the goal.

use vstd::prelude::*;

verus! {

/// Points for picking up gold.
pub const GOLD_VALUE: u32 = 30;

/// Points for killing an enemy.
pub const ENEMY_VALUE: u32 = 20;

/// Number of rows of the map.
pub const ROW_SIZE: usize = 19;

/// Number of columns of the map.
pub const COL_SIZE: usize = 30;

/// The most points a map of `ROW_SIZE` by `COL_SIZE` can hold: gold on every
/// cell. Score and points left on the map never add up to more.
pub const SCORE_CAP: u32 = 17100;

/// Directions one can move in.
#[derive(PartialEq, Eq, Structural, Hash, Clone, Copy, Debug)]
pub enum Dir {
    Up,
    Right,
    Down,
    Left,
}

/// The direction numbered `n`: 0 up, 1 right, 2 down, anything else left.
pub open spec fn dir_of(n: u32) -> Dir {
    if n == 0 {
        Dir::Up
    } else if n == 1 {
        Dir::Right
    } else if n == 2 {
        Dir::Down
    } else {
        Dir::Left
    }
}

impl Dir {
    /// Turns a number into a direction, for players that draw numbers.
    pub fn from_u32(n: &u32) -> (d: Dir)
        ensures
            d == dir_of(*n),
    {
        match *n {
            0 => Dir::Up,
            1 => Dir::Right,
            2 => Dir::Down,
            _ => Dir::Left,
        }
    }
}

/// Things on the map. An enemy must be hit twice in a row, or once with the
/// sword, to die; gold is points; the goal ends the game.
#[derive(PartialEq, Eq, Structural, Hash, Clone, Copy, Debug)]
pub enum Object {
    Wall,
    Enemy,
    Gold,
    Sword,
    Goal,
    Empty,
}

/// What the last move did, with the cell it concerned where there is one.
#[derive(PartialEq, Eq, Structural, Hash, Clone, Copy, Debug)]
pub enum Action {
    PickedSword(usize, usize),
    PickedGold(usize, usize),
    KilledEnemy(usize, usize),
    AttackedEnemy(usize, usize),
    Nothing,
    Won,
    WalkedIntoWall,
}

/// The objects of a map, row by row.
pub type Layout = Seq<Seq<Object>>;

/// The objects held by a grid of rows.
pub open spec fn map_of(world: Seq<Vec<Object>>) -> Layout {
    Seq::new(world.len(), |r: int| world[r]@)
}

/// A map of `ROW_SIZE` rows of `COL_SIZE` objects, walled all around.
pub open spec fn walled(m: Layout) -> bool {
    &&& m.len() == ROW_SIZE
    &&& forall|r: int| 0 <= r < ROW_SIZE ==> #[trigger] m[r].len() == COL_SIZE
    &&& forall|c: int|
        0 <= c < COL_SIZE ==> #[trigger] m[0][c] == Object::Wall && m[ROW_SIZE - 1][c]
            == Object::Wall
    &&& forall|r: int|
        0 <= r < ROW_SIZE ==> #[trigger] m[r][0] == Object::Wall && m[r][COL_SIZE - 1]
            == Object::Wall
}

/// Points that an object on the map is worth.
pub open spec fn value(o: Object) -> int {
    match o {
        Object::Gold => GOLD_VALUE as int,
        Object::Enemy => ENEMY_VALUE as int,
        _ => 0,
    }
}

/// Points left to take in a row.
pub open spec fn row_treasure(row: Seq<Object>) -> int
    decreases row.len(),
{
    if row.len() == 0 {
        0
    } else {
        row_treasure(row.drop_last()) + value(row.last())
    }
}

/// Points left to take on a map.
pub open spec fn treasure(m: Layout) -> int
    decreases m.len(),
{
    if m.len() == 0 {
        0
    } else {
        treasure(m.drop_last()) + row_treasure(m.last())
    }
}

proof fn lemma_row_treasure_update(row: Seq<Object>, i: int, x: Object)
    requires
        0 <= i < row.len(),
    ensures
        row_treasure(row.update(i, x)) == row_treasure(row) - value(row[i]) + value(x),
    decreases row.len(),
{
    let u = row.update(i, x);
    if i == row.len() - 1 {
        assert(u.drop_last() =~= row.drop_last());
    } else {
        assert(u.drop_last() =~= row.drop_last().update(i, x));
        lemma_row_treasure_update(row.drop_last(), i, x);
    }
}

proof fn lemma_treasure_update(m: Layout, r: int, row: Seq<Object>)
    requires
        0 <= r < m.len(),
    ensures
        treasure(m.update(r, row)) == treasure(m) - row_treasure(m[r]) + row_treasure(row),
    decreases m.len(),
{
    let u = m.update(r, row);
    if r == m.len() - 1 {
        assert(u.drop_last() =~= m.drop_last());
    } else {
        assert(u.drop_last() =~= m.drop_last().update(r, row));
        lemma_treasure_update(m.drop_last(), r, row);
    }
}

proof fn lemma_row_treasure_bounds(row: Seq<Object>)
    ensures
        0 <= row_treasure(row) <= GOLD_VALUE * row.len(),
    decreases row.len(),
{
    if row.len() > 0 {
        lemma_row_treasure_bounds(row.drop_last());
    }
}

proof fn lemma_treasure_nonneg(m: Layout)
    ensures
        treasure(m) >= 0,
    decreases m.len(),
{
    if m.len() > 0 {
        lemma_treasure_nonneg(m.drop_last());
        lemma_row_treasure_bounds(m.last());
    }
}

proof fn lemma_treasure_bounds(m: Layout)
    requires
        forall|r: int| 0 <= r < m.len() ==> #[trigger] m[r].len() == COL_SIZE,
    ensures
        0 <= treasure(m) <= GOLD_VALUE * COL_SIZE * m.len(),
    decreases m.len(),
{
    if m.len() > 0 {
        let p = m.drop_last();
        assert forall|r: int| 0 <= r < p.len() implies #[trigger] p[r].len() == COL_SIZE by {
            assert(p[r] == m[r]);
        }
        lemma_treasure_bounds(p);
        lemma_row_treasure_bounds(m.last());
    }
}

/// The map with `x` at cell `t`.
pub open spec fn set_object(m: Layout, t: (int, int), x: Object) -> Layout {
    m.update(t.0, m[t.0].update(t.1, x))
}

/// A game as the rules see it.
pub struct GameView {
    pub map: Layout,
    pub position: (usize, usize),
    pub moves: u32,
    pub score: u32,
    pub action: Action,
    pub has_sword: bool,
}

/// The cell next to `p` in direction `dir`.
pub open spec fn target(p: (usize, usize), dir: Dir) -> (int, int) {
    match dir {
        Dir::Up => (p.0 - 1, p.1 as int),
        Dir::Right => (p.0 as int, p.1 + 1),
        Dir::Down => (p.0 + 1, p.1 as int),
        Dir::Left => (p.0 as int, p.1 - 1),
    }
}

/// A state of play: a walled map, the player inside the walls, and no more
/// points scored and left on the map together than `SCORE_CAP`.
pub open spec fn valid_state(s: GameView) -> bool {
    &&& walled(s.map)
    &&& 0 < s.position.0 < ROW_SIZE - 1
    &&& 0 < s.position.1 < COL_SIZE - 1
    &&& s.score + treasure(s.map) <= SCORE_CAP
}

/// The game after one move in direction `dir`. The move counts; then, by
/// what stands on the cell ahead: a wall stops the player; an enemy is
/// attacked, and dies (leaving its cell to the player, for its points) when
/// the player holds the sword or attacked it on the move before; gold, the
/// sword and the goal are taken, the player steps onto their cell, and the
/// goal wins; empty floor is walked onto.
pub open spec fn step(s: GameView, dir: Dir) -> GameView {
    let t = target(s.position, dir);
    let cell = (t.0 as usize, t.1 as usize);
    let counted = GameView { moves: (s.moves + 1) as u32, ..s };
    let entered = GameView {
        map: set_object(s.map, t, Object::Empty),
        position: cell,
        ..counted
    };
    match s.map[t.0][t.1] {
        Object::Wall => GameView { action: Action::WalkedIntoWall, ..counted },
        Object::Enemy => if s.has_sword || s.action == Action::AttackedEnemy(cell.0, cell.1) {
            GameView {
                action: Action::KilledEnemy(cell.0, cell.1),
                score: (s.score + ENEMY_VALUE) as u32,
                ..entered
            }
        } else {
            GameView { action: Action::AttackedEnemy(cell.0, cell.1), ..counted }
        },
        Object::Gold => GameView {
            action: Action::PickedGold(cell.0, cell.1),
            score: (s.score + GOLD_VALUE) as u32,
            ..entered
        },
        Object::Sword => GameView {
            action: Action::PickedSword(cell.0, cell.1),
            has_sword: true,
            ..entered
        },
        Object::Goal => GameView { action: Action::Won, ..entered },
        Object::Empty => GameView { action: Action::Nothing, position: cell, ..counted },
    }
}

/// The basic world to play in, row by row.
pub const LAYOUT: [[Object; COL_SIZE]; ROW_SIZE] = [
    [
        Object::Wall, Object::Wall, Object::Wall, Object::Wall, Object::Wall, Object::Wall,
        Object::Wall, Object::Wall, Object::Wall, Object::Wall, Object::Wall, Object::Wall,
        Object::Wall, Object::Wall, Object::Wall, Object::Wall, Object::Wall, Object::Wall,
        Object::Wall, Object::Wall, Object::Wall, Object::Wall, Object::Wall, Object::Wall,
        Object::Wall, Object::Wall, Object::Wall, Object::Wall, Object::Wall, Object::Wall,
    ],
    [
        Object::Wall, Object::Wall, Object::Wall, Object::Wall, Object::Wall, Object::Wall,
        Object::Wall, Object::Wall, Object::Wall, Object::Wall, Object::Wall, Object::Wall,
        Object::Wall, Object::Wall, Object::Wall, Object::Wall, Object::Wall, Object::Wall,
        Object::Empty, Object::Empty, Object::Empty, Object::Goal, Object::Empty, Object::Empty,
        Object::Wall, Object::Wall, Object::Wall, Object::Wall, Object::Wall, Object::Wall,
    ],
    [
        Object::Wall, Object::Wall, Object::Wall, Object::Wall, Object::Wall, Object::Wall,
        Object::Wall, Object::Wall, Object::Wall, Object::Wall, Object::Wall, Object::Wall,
        Object::Wall, Object::Wall, Object::Wall, Object::Wall, Object::Wall, Object::Wall,
        Object::Empty, Object::Empty, Object::Empty, Object::Empty, Object::Empty, Object::Empty,
        Object::Wall, Object::Wall, Object::Wall, Object::Wall, Object::Wall, Object::Wall,
    ],
    [
        Object::Wall, Object::Wall, Object::Wall, Object::Wall, Object::Wall, Object::Wall,
        Object::Wall, Object::Wall, Object::Wall, Object::Wall, Object::Empty, Object::Empty,
        Object::Empty, Object::Empty, Object::Enemy, Object::Empty, Object::Empty, Object::Empty,
        Object::Empty, Object::Empty, Object::Empty, Object::Empty, Object::Enemy, Object::Empty,
        Object::Wall, Object::Wall, Object::Wall, Object::Wall, Object::Wall, Object::Wall,
    ],
    [
        Object::Wall, Object::Wall, Object::Wall, Object::Wall, Object::Wall, Object::Wall,
        Object::Wall, Object::Wall, Object::Wall, Object::Empty, Object::Empty, Object::Empty,
        Object::Enemy, Object::Empty, Object::Empty, Object::Empty, Object::Empty, Object::Empty,
        Object::Empty, Object::Enemy, Object::Empty, Object::Empty, Object::Empty, Object::Empty,
        Object::Wall, Object::Wall, Object::Wall, Object::Wall, Object::Wall, Object::Wall,
    ],
    [
        Object::Wall, Object::Wall, Object::Wall, Object::Wall, Object::Wall, Object::Wall,
        Object::Wall, Object::Wall, Object::Wall, Object::Wall, Object::Empty, Object::Empty,
        Object::Empty, Object::Empty, Object::Empty, Object::Empty, Object::Enemy, Object::Empty,
        Object::Empty, Object::Empty, Object::Empty, Object::Empty, Object::Wall, Object::Wall,
        Object::Wall, Object::Wall, Object::Wall, Object::Wall, Object::Wall, Object::Wall,
    ],
    [
        Object::Wall, Object::Wall, Object::Wall, Object::Wall, Object::Wall, Object::Wall,
        Object::Wall, Object::Wall, Object::Wall, Object::Wall, Object::Wall, Object::Empty,
        Object::Empty, Object::Empty, Object::Empty, Object::Empty, Object::Empty, Object::Empty,
        Object::Empty, Object::Empty, Object::Empty, Object::Wall, Object::Wall, Object::Wall,
        Object::Wall, Object::Wall, Object::Wall, Object::Wall, Object::Wall, Object::Wall,
    ],
    [
        Object::Wall, Object::Wall, Object::Wall, Object::Wall, Object::Wall, Object::Wall,
        Object::Wall, Object::Wall, Object::Wall, Object::Wall, Object::Wall, Object::Wall,
        Object::Wall, Object::Wall, Object::Wall, Object::Empty, Object::Empty, Object::Wall,
        Object::Wall, Object::Wall, Object::Wall, Object::Wall, Object::Wall, Object::Wall,
        Object::Wall, Object::Wall, Object::Wall, Object::Wall, Object::Wall, Object::Wall,
    ],
    [
        Object::Wall, Object::Wall, Object::Wall, Object::Wall, Object::Wall, Object::Wall,
        Object::Wall, Object::Wall, Object::Wall, Object::Wall, Object::Wall, Object::Wall,
        Object::Wall, Object::Wall, Object::Wall, Object::Enemy, Object::Empty, Object::Wall,
        Object::Wall, Object::Wall, Object::Wall, Object::Wall, Object::Wall, Object::Wall,
        Object::Wall, Object::Wall, Object::Wall, Object::Wall, Object::Wall, Object::Wall,
    ],
    [
        Object::Wall, Object::Wall, Object::Wall, Object::Wall, Object::Wall, Object::Wall,
        Object::Wall, Object::Wall, Object::Wall, Object::Wall, Object::Wall, Object::Wall,
        Object::Wall, Object::Wall, Object::Wall, Object::Empty, Object::Empty, Object::Wall,
        Object::Wall, Object::Wall, Object::Wall, Object::Wall, Object::Wall, Object::Wall,
        Object::Wall, Object::Wall, Object::Wall, Object::Wall, Object::Wall, Object::Wall,
    ],
    [
        Object::Wall, Object::Wall, Object::Wall, Object::Wall, Object::Wall, Object::Wall,
        Object::Wall, Object::Wall, Object::Wall, Object::Wall, Object::Wall, Object::Empty,
        Object::Empty, Object::Empty, Object::Empty, Object::Empty, Object::Enemy, Object::Empty,
        Object::Empty, Object::Empty, Object::Empty, Object::Empty, Object::Empty, Object::Empty,
        Object::Wall, Object::Wall, Object::Wall, Object::Wall, Object::Wall, Object::Wall,
    ],
    [
        Object::Wall, Object::Wall, Object::Empty, Object::Empty, Object::Empty, Object::Empty,
        Object::Empty, Object::Wall, Object::Wall, Object::Wall, Object::Wall, Object::Empty,
        Object::Empty, Object::Wall, Object::Wall, Object::Wall, Object::Wall, Object::Wall,
        Object::Wall, Object::Wall, Object::Wall, Object::Wall, Object::Enemy, Object::Empty,
        Object::Wall, Object::Wall, Object::Wall, Object::Wall, Object::Wall, Object::Wall,
    ],
    [
        Object::Wall, Object::Empty, Object::Empty, Object::Empty, Object::Enemy, Object::Empty,
        Object::Empty, Object::Empty, Object::Wall, Object::Wall, Object::Wall, Object::Empty,
        Object::Empty, Object::Wall, Object::Wall, Object::Wall, Object::Wall, Object::Wall,
        Object::Wall, Object::Wall, Object::Wall, Object::Wall, Object::Empty, Object::Empty,
        Object::Wall, Object::Wall, Object::Wall, Object::Wall, Object::Wall, Object::Wall,
    ],
    [
        Object::Wall, Object::Empty, Object::Gold, Object::Empty, Object::Empty, Object::Empty,
        Object::Empty, Object::Empty, Object::Empty, Object::Empty, Object::Empty, Object::Enemy,
        Object::Empty, Object::Wall, Object::Wall, Object::Wall, Object::Wall, Object::Wall,
        Object::Wall, Object::Wall, Object::Wall, Object::Wall, Object::Empty, Object::Empty,
        Object::Empty, Object::Empty, Object::Enemy, Object::Empty, Object::Empty, Object::Wall,
    ],
    [
        Object::Wall, Object::Wall, Object::Empty, Object::Empty, Object::Empty, Object::Enemy,
        Object::Empty, Object::Empty, Object::Wall, Object::Wall, Object::Wall, Object::Empty,
        Object::Empty, Object::Wall, Object::Wall, Object::Wall, Object::Wall, Object::Wall,
        Object::Wall, Object::Wall, Object::Wall, Object::Wall, Object::Empty, Object::Empty,
        Object::Enemy, Object::Empty, Object::Empty, Object::Empty, Object::Empty, Object::Wall,
    ],
    [
        Object::Wall, Object::Wall, Object::Wall, Object::Wall, Object::Wall, Object::Wall,
        Object::Wall, Object::Wall, Object::Wall, Object::Wall, Object::Wall, Object::Empty,
        Object::Empty, Object::Wall, Object::Wall, Object::Wall, Object::Wall, Object::Wall,
        Object::Wall, Object::Wall, Object::Wall, Object::Wall, Object::Wall, Object::Wall,
        Object::Wall, Object::Empty, Object::Empty, Object::Wall, Object::Wall, Object::Wall,
    ],
    [
        Object::Wall, Object::Empty, Object::Empty, Object::Empty, Object::Empty, Object::Empty,
        Object::Empty, Object::Empty, Object::Empty, Object::Empty, Object::Empty, Object::Empty,
        Object::Empty, Object::Wall, Object::Wall, Object::Wall, Object::Wall, Object::Wall,
        Object::Wall, Object::Wall, Object::Wall, Object::Wall, Object::Wall, Object::Empty,
        Object::Empty, Object::Empty, Object::Empty, Object::Empty, Object::Empty, Object::Wall,
    ],
    [
        Object::Wall, Object::Empty, Object::Empty, Object::Empty, Object::Empty, Object::Empty,
        Object::Empty, Object::Wall, Object::Wall, Object::Wall, Object::Wall, Object::Wall,
        Object::Wall, Object::Wall, Object::Wall, Object::Wall, Object::Wall, Object::Wall,
        Object::Wall, Object::Wall, Object::Wall, Object::Wall, Object::Wall, Object::Empty,
        Object::Empty, Object::Sword, Object::Empty, Object::Empty, Object::Empty, Object::Wall,
    ],
    [
        Object::Wall, Object::Wall, Object::Wall, Object::Wall, Object::Wall, Object::Wall,
        Object::Wall, Object::Wall, Object::Wall, Object::Wall, Object::Wall, Object::Wall,
        Object::Wall, Object::Wall, Object::Wall, Object::Wall, Object::Wall, Object::Wall,
        Object::Wall, Object::Wall, Object::Wall, Object::Wall, Object::Wall, Object::Wall,
        Object::Wall, Object::Wall, Object::Wall, Object::Wall, Object::Wall, Object::Wall,
    ],
];

/// The objects of `LAYOUT`.
pub open spec fn layout() -> Layout {
    Seq::new(ROW_SIZE as nat, |r: int| LAYOUT@[r]@)
}

/// The basic world to play in.
fn world() -> (w: Vec<Vec<Object>>)
    ensures
        map_of(w@) == layout(),
        walled(layout()),
{
    let mut w: Vec<Vec<Object>> = Vec::new();
    for r in 0..ROW_SIZE
        invariant
            w.len() == r,
            forall|i: int| 0 <= i < r ==> (#[trigger] w@[i])@ == layout()[i],
    {
        let mut row: Vec<Object> = Vec::new();
        for c in 0..COL_SIZE
            invariant
                r < ROW_SIZE,
                row.len() == c,
                forall|j: int| 0 <= j < c ==> #[trigger] row@[j] == layout()[r as int][j],
        {
            row.push(LAYOUT[r][c]);
        }
        assert(row@ =~= layout()[r as int]);
        w.push(row);
    }
    assert(map_of(w@) =~= layout());
    assert(walled(layout()));
    w
}

/// A game with its state.
#[derive(PartialEq, Eq, Hash)]
pub struct Game {
    /// The map; taken objects leave empty floor.
    world: Vec<Vec<Object>>,
    /// Position of the player, as (row, column).
    pub position: (usize, usize),
    /// Count of moves made.
    moves: u32,
    /// Points so far.
    score: u32,
    /// What the last move did.
    pub action: Action,
    /// The player holds the sword.
    has_sword: bool,
}

impl Clone for Game {
    fn clone(&self) -> (g: Game)
        ensures
            g@ == self@,
    {
        let mut world: Vec<Vec<Object>> = Vec::new();
        for r in 0..self.world.len()
            invariant
                world.len() == r,
                r <= self.world.len(),
                forall|i: int| 0 <= i < r ==> (#[trigger] world@[i])@ == self.world@[i]@,
        {
            world.push(self.world[r].clone());
            assert(world@[r as int]@ =~= self.world@[r as int]@);
        }
        assert(map_of(world@) =~= map_of(self.world@));
        Game {
            world,
            position: self.position,
            moves: self.moves,
            score: self.score,
            action: self.action,
            has_sword: self.has_sword,
        }
    }
}

impl View for Game {
    type V = GameView;

    closed spec fn view(&self) -> GameView {
        GameView {
            map: map_of(self.world@),
            position: self.position,
            moves: self.moves,
            score: self.score,
            action: self.action,
            has_sword: self.has_sword,
        }
    }
}

impl Game {
    /// The game is in a state of play.
    pub open spec fn wf(&self) -> bool {
        valid_state(self@)
    }

    /// A new game on the basic world, the player at row 17, column 4.
    pub fn new() -> (g: Game)
        ensures
            g.wf(),
            g@.map == layout(),
            g@.position == (17usize, 4usize),
            g@.moves == 0,
            g@.score == 0,
            g@.action == Action::Nothing,
            !g@.has_sword,
    {
        let w = world();
        proof {
            lemma_treasure_bounds(map_of(w@));
        }
        Game {
            world: w,
            position: (17, 4),
            moves: 0,
            score: 0,
            action: Action::Nothing,
            has_sword: false,
        }
    }

    /// Count of moves made.
    pub fn get_moves(&self) -> (n: u32)
        ensures
            n == self@.moves,
    {
        self.moves
    }

    /// Points so far.
    pub fn get_score(&self) -> (n: u32)
        ensures
            n == self@.score,
    {
        self.score
    }

    /// The last move reached the goal.
    pub fn has_won(&self) -> (r: bool)
        ensures
            r == (self@.action == Action::Won),
    {
        self.action == Action::Won
    }

    /// The object at row `r`, column `c`.
    pub fn object_at(&self, r: usize, c: usize) -> (x: Object)
        requires
            self.wf(),
            r < ROW_SIZE,
            c < COL_SIZE,
        ensures
            x == self@.map[r as int][c as int],
    {
        assert(self@.map[r as int] == self.world@[r as int]@);
        self.world[r][c]
    }

    /// Makes a move; returns whether it won the game.
    pub fn enter_move(&mut self, dir: &Dir) -> (won: bool)
        requires
            old(self).wf(),
            old(self)@.moves < u32::MAX,
        ensures
            final(self).wf(),
            final(self)@ == step(old(self)@, *dir),
            won == (final(self)@.action == Action::Won),
    {
        self.make_move(dir);
        self.has_won()
    }

    /// Makes a move by the rules of `step`.
    fn make_move(&mut self, dir: &Dir)
        requires
            old(self).wf(),
            old(self)@.moves < u32::MAX,
        ensures
            final(self).wf(),
            final(self)@ == step(old(self)@, *dir),
    {
        let ghost s = self@;
        self.moves = self.moves + 1;
        let target = match *dir {
            Dir::Up => (self.position.0 - 1, self.position.1),
            Dir::Right => (self.position.0, self.position.1 + 1),
            Dir::Down => (self.position.0 + 1, self.position.1),
            Dir::Left => (self.position.0, self.position.1 - 1),
        };
        assert(self@.map[target.0 as int] == self.world@[target.0 as int]@);
        let ahead = self.world[target.0][target.1];
        proof {
            let m = self@.map;
            assert(m[0][target.1 as int] == Object::Wall);
            assert(m[ROW_SIZE - 1][target.1 as int] == Object::Wall);
            assert(m[target.0 as int][0] == Object::Wall);
            assert(m[target.0 as int][COL_SIZE - 1] == Object::Wall);
            lemma_treasure_nonneg(set_object(m, (target.0 as int, target.1 as int), Object::Empty));
        }
        match ahead {
            Object::Wall => self.action = Action::WalkedIntoWall,
            Object::Enemy => {
                if self.has_sword || self.action == Action::AttackedEnemy(target.0, target.1) {
                    self.move_into(target);
                    self.action = Action::KilledEnemy(target.0, target.1);
                    self.score = self.score + ENEMY_VALUE;
                } else {
                    self.action = Action::AttackedEnemy(target.0, target.1);
                }
            },
            Object::Gold => {
                self.move_into(target);
                self.score = self.score + GOLD_VALUE;
                self.action = Action::PickedGold(target.0, target.1);
            },
            Object::Sword => {
                self.move_into(target);
                self.has_sword = true;
                self.action = Action::PickedSword(target.0, target.1);
            },
            Object::Goal => {
                self.move_into(target);
                self.action = Action::Won;
            },
            Object::Empty => {
                self.action = Action::Nothing;
                self.position = target;
            },
        }
        assert(self@ == step(s, *dir));
    }

    /// Empties the cell `target`, takes its points off the map, and puts the
    /// player there.
    fn move_into(&mut self, target: (usize, usize))
        requires
            walled(old(self)@.map),
            0 < target.0 < ROW_SIZE - 1,
            0 < target.1 < COL_SIZE - 1,
        ensures
            final(self)@ == (GameView {
                map: set_object(old(self)@.map, (target.0 as int, target.1 as int), Object::Empty),
                position: target,
                ..old(self)@
            }),
            walled(final(self)@.map),
            treasure(final(self)@.map) == treasure(old(self)@.map) - value(
                old(self)@.map[target.0 as int][target.1 as int],
            ),
    {
        let ghost m = self@.map;
        assert(m[target.0 as int] == self.world@[target.0 as int]@);
        self.world[target.0][target.1] = Object::Empty;
        self.position = target;
        proof {
            let t = (target.0 as int, target.1 as int);
            assert(self@.map =~~= set_object(m, t, Object::Empty));
            lemma_row_treasure_update(m[t.0], t.1, Object::Empty);
            lemma_treasure_update(m, t.0, m[t.0].update(t.1, Object::Empty));
        }
    }
}

} // verus!
