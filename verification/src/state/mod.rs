pub mod bookkeeping;
pub mod exits;
pub mod market;
pub mod position;
pub mod prices;
