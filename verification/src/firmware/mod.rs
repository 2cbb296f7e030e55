//! The token's firmware logic: the touch button debouncer, the token state
//! machine and its timers, the LED animation frames, and the dispatcher
//! that answers USB requests with the crypto service.

pub mod animation;
pub mod dispatch;
pub mod io;
pub mod state_machine;
pub mod timers;
