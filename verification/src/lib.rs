//! Game rules, peer protocol and page logic of a small multiplayer snake game
//! whose first player hosts the simulation and talks to peers over data channels.

pub mod game;
pub mod game_laws;
pub mod page;
pub mod protocol;
pub mod qr;
pub mod session;
pub mod signal;
pub mod text;
