//! The broadcast dispatcher: one message, pushed once to every connection
//! that a scan of the registry yields, with the connections that turn out to
//! be gone evicted on the way.
//!
//! The dispatcher performs no call itself. It is told what happened (a page
//! was read, an attempt was answered, a removal went through) and says what
//! to do next. Whoever drives it carries out each action and reports back.

pub mod soundness;
pub mod laws;
pub mod machine;
pub mod model;
