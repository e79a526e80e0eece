//! The query executor: it builds the command, sends it to the daemon and
//! reads the answer; and the replies to the four kinds of request.

use vstd::prelude::*;
use vstd::hash_map::StringHashMap;
use crate::command::{build_command, command_text, default_params, TopParams};
use crate::reply::{
    reply_data, reply_error, reply_for, reply_view, Error, Reply, ReplyDataView,
};
use crate::response::{read_response, response_of, STRING_BUFFER_LEN};
use crate::result_set::{outcome_view, ResultSet, ResultSetView};
use crate::wire::{FtlConnection, WireError};

verus! {

/// Why a query gave no result.
#[derive(Clone, Copy, Debug, PartialEq, Eq, Structural)]
pub enum QueryError {
    /// The daemon could not be reached with the command.
    ConnectionError,
    /// The answer could not be decoded.
    Wire(WireError),
}

/// The daemon as a request sees it: the answer it gives to each command
/// line. A command that has no answer cannot be sent.
pub struct FtlConnectionType {
    answers: StringHashMap<Vec<u8>>,
}

impl View for FtlConnectionType {
    type V = Map<Seq<char>, Seq<u8>>;

    closed spec fn view(&self) -> Map<Seq<char>, Seq<u8>> {
        self.answers@.map_values(|answer: Vec<u8>| answer@)
    }
}

impl FtlConnectionType {
    /// A daemon that answers no command.
    pub fn new() -> (ftl: Self)
        ensures
            ftl@ == Map::<Seq<char>, Seq<u8>>::empty(),
    {
        let ftl = FtlConnectionType { answers: StringHashMap::new() };
        assert(ftl@ =~= Map::<Seq<char>, Seq<u8>>::empty());
        ftl
    }

    /// Lets the daemon answer `command` with `answer`, in place of what it
    /// answered before.
    pub fn insert(&mut self, command: String, answer: Vec<u8>)
        ensures
            final(self)@ == old(self)@.insert(command@, answer@),
    {
        self.answers.insert(command, answer);
        assert(self@ =~= old(self)@.insert(command@, answer@));
    }

    /// Sends `command` and hands out a handle at the start of the answer.
    pub fn connect<'a>(&'a self, command: &str) -> (r: Result<FtlConnection<'a>, QueryError>)
        ensures
            match r {
                Ok(con) => self@.contains_key(command@) && con@ == self@[command@],
                Err(e) => !self@.contains_key(command@) && e == QueryError::ConnectionError,
            },
    {
        match self.answers.get(command) {
            Some(answer) => Ok(FtlConnection::new(answer.as_slice())),
            None => Err(QueryError::ConnectionError),
        }
    }
}

/// What a query gives: the command has to reach the daemon, and the answer
/// has to decode to its end.
pub open spec fn query_result(daemon: Map<Seq<char>, Seq<u8>>, blocked: bool, params: TopParams)
    -> Result<ResultSetView, QueryError> {
    if !daemon.contains_key(command_text(blocked, params)) {
        Err(QueryError::ConnectionError)
    } else {
        match response_of(daemon[command_text(blocked, params)], STRING_BUFFER_LEN as int) {
            Ok(result) => Ok(result),
            Err(e) => Err(QueryError::Wire(e)),
        }
    }
}

/// Asks the daemon for a top list, of blocked domains or of all, and reads
/// the answer.
pub fn run_query(ftl: &FtlConnectionType, blocked: bool, params: &TopParams) -> (r: Result<
    ResultSet,
    QueryError,
>)
    ensures
        outcome_view(r) == query_result(ftl@, blocked, *params),
{
    let command = build_command(blocked, params);
    let con = match ftl.connect(command.as_str()) {
        Ok(con) => con,
        Err(e) => {
            return Err(e);
        },
    };
    match read_response(con) {
        Ok(result) => Ok(result),
        Err(e) => Err(QueryError::Wire(e)),
    }
}

/// The reply to a request for a top list: the list and the total under the
/// names of the request's kind, or the general failure if the query failed
/// in any way.
pub fn get_top_domains(ftl: &FtlConnectionType, blocked: bool, params: TopParams) -> (reply: Reply)
    ensures
        reply_view(reply) == reply_for(blocked, query_result(ftl@, blocked, params)),
{
    match run_query(ftl, blocked, &params) {
        Ok(result) => reply_data(blocked, result),
        Err(_) => reply_error(Error::Unknown),
    }
}

/// The top domains, with the default parameters.
pub fn top_domains(ftl: &FtlConnectionType) -> (reply: Reply)
    ensures
        reply_view(reply) == reply_for(false, query_result(ftl@, false, default_params())),
{
    get_top_domains(ftl, false, TopParams::default())
}

/// The top domains, with the parameters given.
pub fn top_domains_params(ftl: &FtlConnectionType, params: TopParams) -> (reply: Reply)
    ensures
        reply_view(reply) == reply_for(false, query_result(ftl@, false, params)),
{
    get_top_domains(ftl, false, params)
}

/// The top blocked domains, with the default parameters.
pub fn top_blocked(ftl: &FtlConnectionType) -> (reply: Reply)
    ensures
        reply_view(reply) == reply_for(true, query_result(ftl@, true, default_params())),
{
    get_top_domains(ftl, true, TopParams::default())
}

/// The top blocked domains, with the parameters given.
pub fn top_blocked_params(ftl: &FtlConnectionType, params: TopParams) -> (reply: Reply)
    ensures
        reply_view(reply) == reply_for(true, query_result(ftl@, true, params)),
{
    get_top_domains(ftl, true, params)
}

/// A query that fails, in whatever way, is answered with the general
/// failure, which carries no list and no total.
pub proof fn lemma_failure_is_general(
    daemon: Map<Seq<char>, Seq<u8>>,
    blocked: bool,
    params: TopParams,
)
    requires
        query_result(daemon, blocked, params) is Err,
    ensures
        reply_for(blocked, query_result(daemon, blocked, params)) == Err::<ReplyDataView, Error>(
            Error::Unknown,
        ),
{
}

} // verus!
