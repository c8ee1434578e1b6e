pub mod client;
pub mod key;
pub mod keyboard;
pub mod xkb_state;
pub mod state;
