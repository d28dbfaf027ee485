//! A stack of application states (menu, game, pause, ...) with lifecycle
//! hooks. Only the state on top of the stack is started, updated and drawn.
//!
//! - `state`: the `State` trait that an application implements for each of
//!   its screens, and the answer `StateFinished`.
//! - `states`: the stack itself, `States`.
//! - `model`: what the contracts speak of. A stack is seen as the states it
//!   holds and a log of every hook call it has made; each operation adds at
//!   most one call to the log.
//! - `lifecycle`, `history`, `laws`: what is proved of every log that a
//!   stack can make, of the history that a state may keep of itself, and
//!   of operations that follow one another.

pub mod history;
pub mod laws;
pub mod lifecycle;
pub mod model;
pub mod state;
pub mod states;

pub use crate::model::{Call, Entry, StatesView};
pub use crate::state::{Hook, State, StateFinished};
pub use crate::states::States;
