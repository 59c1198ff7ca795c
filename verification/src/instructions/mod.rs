pub mod close_position;
pub mod deposit_token;
pub mod initialize_exits;
pub mod initialize_market;
pub mod update_bookkeeping;
pub mod withdraw_swapped_tokens;
