//! A line-oriented pub/sub protocol ("redisish") with its wire codec, an
//! append-only mailbox shared by all connections, and the per-connection
//! decision logic, together with the small terminal-client model and a pair
//! of fizzbuzz exercises that live in the same workspace.

pub mod codec;
pub mod controller;
pub mod fizzbuzz;
pub mod handler;
pub mod mailbox;
pub mod model;
pub mod text;

pub use codec::Command;
pub use codec::Error;
pub use codec::parse;
pub use controller::ControlAction;
pub use controller::Event;
pub use controller::Key;
pub use fizzbuzz::fizzbuzz_with_loops;
pub use fizzbuzz::fizzbuzz_with_match;
pub use handler::ConnEvent;
pub use handler::HandlerAction;
pub use mailbox::Mailbox;
pub use model::Model;
