//! Authoritative core of a multiplayer space simulation server: the world's
//! bookkeeping (planets, ships, bullets, scores), the command protocol that
//! drives it, player admission, and the latest-value snapshot fan-out.

pub mod wire;
pub mod world;
pub mod command;
pub mod admission;
pub mod fanout;
pub mod session;
