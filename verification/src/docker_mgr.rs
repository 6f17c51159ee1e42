//! The container lifecycle manager: a state machine that is driven by polls
//! of the container runtime, by the requests of clients and by an idle
//! timer.

pub mod backoff;
pub mod clock;
pub mod event;
pub mod laws;
pub mod message;
pub mod model;
pub mod observe;
pub mod pending;
pub mod service;
pub mod state;

pub use self::event::{LoopEvent, LoopStep, RuntimeCommand};
pub use self::message::{DockerMessage, DockerMessageType, ReplyHandle};
pub use self::service::{DockerManagerService, GroupQuery, StartupError};
pub use self::state::DockerManagerState;
