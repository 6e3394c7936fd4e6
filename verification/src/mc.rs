//! The packets of the game's network protocol that a replay is made of.

pub mod packet;
