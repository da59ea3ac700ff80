pub mod chance;
pub mod elo;
pub mod emperor;
pub mod limbs;
pub mod referee;
pub mod schedule;
