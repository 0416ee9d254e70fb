//! The customary imports for embedding the game.

pub use crate::cli::{Arguments, ControllerParam};
pub use crate::controller::{Controller, PlayerController, RandomController, SimulatedController};
pub use crate::game::GameError;
pub use crate::game::Rules as GameRules;
pub use crate::game_manager::GameManager;
pub use crate::game_manager::Rules as ManagerRules;
