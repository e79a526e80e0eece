//! Client side of the statistics daemon's streaming protocol for the
//! "top domains" and "top blocked" queries: the command line that asks for
//! a list, the decoding of the MessagePack answer, and the reply that is
//! handed to the HTTP layer.
//!
//! An answer is one 32-bit integer, the total, then any number of records,
//! each a label and a 32-bit count, and then the marker byte that
//! MessagePack reserves, which ends the message. The contracts are stated
//! over the bytes of the answer; `frames` proves that an answer written to
//! this layout is read back as it was written.

pub mod command;
pub mod frames;
pub mod msgpack;
pub mod query;
pub mod reply;
pub mod response;
pub mod result_set;
pub mod wire;

pub use crate::command::{build_command, command_line, TopParams};
pub use crate::query::{
    get_top_domains, run_query, top_blocked, top_blocked_params, top_domains, top_domains_params,
    FtlConnectionType, QueryError,
};
pub use crate::reply::{Error, Reply, ReplyData};
pub use crate::response::{needs_more, read_response, STRING_BUFFER_LEN};
pub use crate::result_set::{RecordEntry, ResultSet};
pub use crate::wire::{FtlConnection, StrOutcome, WireError};
