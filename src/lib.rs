//! Three small grid games with verified rules: a match-three puzzle board
//! (`game`), a dungeon crawl (`roguelike`) and a taxi pick-up world (`taxi`).

pub mod game;
pub mod random;
pub mod roguelike;
pub mod taxi;
