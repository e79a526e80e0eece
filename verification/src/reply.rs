//! The reply that the HTTP layer sends on: the list and the total under the
//! names of the request's kind, or one general failure.

use vstd::prelude::*;
use crate::query::QueryError;
use crate::result_set::{ResultSet, ResultSetView};

verus! {

/// The failure that a caller gets to see. It says nothing of what went
/// wrong on the wire.
#[derive(Clone, Copy, Debug, PartialEq, Eq, Structural)]
pub enum Error {
    Unknown,
}

/// The name under which the list is sent.
pub open spec fn list_key_text(blocked: bool) -> Seq<char> {
    if blocked {
        "top_blocked"@
    } else {
        "top_domains"@
    }
}

/// The name under which the total is sent.
pub open spec fn total_key_text(blocked: bool) -> Seq<char> {
    if blocked {
        "blocked_queries"@
    } else {
        "total_queries"@
    }
}

/// A list and its total, each with the name it is sent under.
#[derive(Debug)]
pub struct ReplyData {
    pub list_key: &'static str,
    pub total_key: &'static str,
    pub result: ResultSet,
}

/// `ReplyData` with its names as sequences of characters and its result as
/// a total and a mapping.
pub struct ReplyDataView {
    pub list_key: Seq<char>,
    pub total_key: Seq<char>,
    pub result: ResultSetView,
}

impl View for ReplyData {
    type V = ReplyDataView;

    open spec fn view(&self) -> ReplyDataView {
        ReplyDataView {
            list_key: self.list_key@,
            total_key: self.total_key@,
            result: self.result@,
        }
    }
}

/// What a request is answered with.
pub type Reply = Result<ReplyData, Error>;

/// The reply to a request whose query gave `outcome`: the data under the
/// names of the request's kind, or the general failure whatever the query
/// failed with.
pub open spec fn reply_for(blocked: bool, outcome: Result<ResultSetView, QueryError>) -> Result<
    ReplyDataView,
    Error,
> {
    match outcome {
        Ok(result) => Ok(
            ReplyDataView {
                list_key: list_key_text(blocked),
                total_key: total_key_text(blocked),
                result,
            },
        ),
        Err(_) => Err(Error::Unknown),
    }
}

/// A reply as `reply_for` speaks of it.
pub open spec fn reply_view(reply: Reply) -> Result<ReplyDataView, Error> {
    match reply {
        Ok(data) => Ok(data@),
        Err(e) => Err(e),
    }
}

/// The reply that carries `result`.
pub fn reply_data(blocked: bool, result: ResultSet) -> (reply: Reply)
    ensures
        reply_view(reply) == reply_for(blocked, Ok(result@)),
{
    if blocked {
        Ok(ReplyData { list_key: "top_blocked", total_key: "blocked_queries", result })
    } else {
        Ok(ReplyData { list_key: "top_domains", total_key: "total_queries", result })
    }
}

/// The reply that reports a failure.
pub fn reply_error(error: Error) -> (reply: Reply)
    ensures
        reply == Err::<ReplyData, Error>(error),
{
    Err(error)
}

} // verus!
