//! An incremental decoder for the server-sent-event stream of a
//! chat-completion response.
//!
//! The bytes of a response arrive in chunks that are cut anywhere. The
//! [`splitter`] puts them together into lines, the [`classifier`] says what
//! each line is, the [`decoder`] reads the payload of a data frame, and the
//! [`driver`] turns all of it into an ordered sequence of events: tokens,
//! then one `Done` or one `Error`. The driver performs no input or output:
//! its caller hands it what the transport delivered and emits what comes
//! back. [`machine`] states what the driver does as a function from state
//! and input to state and events, and [`theorems`] holds what is proved of
//! every run of it.

pub mod classifier;
pub mod decoder;
pub mod driver;
pub mod json;
pub mod machine;
pub mod models;
pub mod splitter;
pub mod text;
pub mod theorems;
