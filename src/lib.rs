//! Client side of the length-prefixed message protocol spoken by a Prolog
//! query server: wire framing, the generic JSON value model, Prolog terms,
//! query results and the session protocol state machine.

pub mod error;
pub mod frame;
pub mod json;
pub mod printer;
pub mod server;
pub mod session;
pub mod text;
pub mod types;

pub use error::PrologError;
pub use server::ServerConfig;
pub use session::{ConnectionAddr, PrologSession};
pub use types::{PrologCompound, PrologTerm, QueryResult, Solution};
