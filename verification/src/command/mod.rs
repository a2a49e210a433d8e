//! The command protocol: the reader of command lines, the execution of a
//! command on the store, and the writer of replies.

use crate::text::{parse_unsigned, same_text, split_words, texts, unsigned_value, words};
use vstd::prelude::*;

pub mod execute;
pub mod reply;

pub use crate::command::execute::{command_parser, command_parser_at};

verus! {

/// Why a command line was not accepted.
#[derive(Clone, Copy, Debug, PartialEq, Eq)]
pub enum ParseError {
    /// The time to live is no unsigned number.
    InvalidTtl,
    /// The first index of a range is no unsigned number; for a range of a
    /// list, either of the two indices.
    InvalidStartIndex,
    /// The last index of a range of a sorted set is no unsigned number.
    InvalidEndIndex,
    /// The score is no number.
    InvalidScore,
    /// The line is no command: its first word or its number of words fits
    /// none.
    UnknownCommand,
}

/// A command on scalar values.
#[derive(Clone, Debug, PartialEq, Eq)]
pub enum ScalarCommand {
    SetValue { key: String, value: String, ttl: Option<u64> },
    Get { key: String },
    Del { key: String },
}

/// What a command on scalar values says.
pub enum ScalarRequest {
    SetValue { key: Seq<char>, value: Seq<char>, ttl: Option<u64> },
    Get { key: Seq<char> },
    Del { key: Seq<char> },
}

impl View for ScalarCommand {
    type V = ScalarRequest;

    open spec fn view(&self) -> ScalarRequest {
        match *self {
            ScalarCommand::SetValue { key, value, ttl } => ScalarRequest::SetValue { key: key@, value: value@, ttl },
            ScalarCommand::Get { key } => ScalarRequest::Get { key: key@ },
            ScalarCommand::Del { key } => ScalarRequest::Del { key: key@ },
        }
    }
}

/// A command on lists.
#[derive(Clone, Debug, PartialEq, Eq)]
pub enum ListCommand {
    LPush { key: String, value: String },
    RPush { key: String, value: String },
    LPop { key: String },
    RPop { key: String },
    LRange { start: usize, end: usize, key: String },
}

/// What a command on lists says.
pub enum ListRequest {
    LPush { key: Seq<char>, value: Seq<char> },
    RPush { key: Seq<char>, value: Seq<char> },
    LPop { key: Seq<char> },
    RPop { key: Seq<char> },
    LRange { start: usize, end: usize, key: Seq<char> },
}

impl View for ListCommand {
    type V = ListRequest;

    open spec fn view(&self) -> ListRequest {
        match *self {
            ListCommand::LPush { key, value } => ListRequest::LPush { key: key@, value: value@ },
            ListCommand::RPush { key, value } => ListRequest::RPush { key: key@, value: value@ },
            ListCommand::LPop { key } => ListRequest::LPop { key: key@ },
            ListCommand::RPop { key } => ListRequest::RPop { key: key@ },
            ListCommand::LRange { start, end, key } => ListRequest::LRange { start, end, key: key@ },
        }
    }
}

/// A command on sets.
#[derive(Clone, Debug, PartialEq, Eq)]
pub enum SetCommand {
    SAdd { key: String, value: String },
    SRem { key: String, value: String },
    SMembers { key: String },
    SIsMember { key: String, member: String },
}

/// What a command on sets says.
pub enum SetRequest {
    SAdd { key: Seq<char>, value: Seq<char> },
    SRem { key: Seq<char>, value: Seq<char> },
    SMembers { key: Seq<char> },
    SIsMember { key: Seq<char>, member: Seq<char> },
}

impl View for SetCommand {
    type V = SetRequest;

    open spec fn view(&self) -> SetRequest {
        match *self {
            SetCommand::SAdd { key, value } => SetRequest::SAdd { key: key@, value: value@ },
            SetCommand::SRem { key, value } => SetRequest::SRem { key: key@, value: value@ },
            SetCommand::SMembers { key } => SetRequest::SMembers { key: key@ },
            SetCommand::SIsMember { key, member } => SetRequest::SIsMember { key: key@, member: member@ },
        }
    }
}

/// A command on sorted sets. The score of `ZAdd` is kept as written.
#[derive(Clone, Debug, PartialEq, Eq)]
pub enum SortedSetCommand {
    ZAdd { score: String, member: String, key: String },
    ZRem { key: String, member: String },
    ZRange { key: String, start: usize, end: usize },
    ZScore { key: String, member: String },
}

/// What a command on sorted sets says.
pub enum SortedSetRequest {
    ZAdd { score: Seq<char>, member: Seq<char>, key: Seq<char> },
    ZRem { key: Seq<char>, member: Seq<char> },
    ZRange { key: Seq<char>, start: usize, end: usize },
    ZScore { key: Seq<char>, member: Seq<char> },
}

impl View for SortedSetCommand {
    type V = SortedSetRequest;

    open spec fn view(&self) -> SortedSetRequest {
        match *self {
            SortedSetCommand::ZAdd { score, member, key } => SortedSetRequest::ZAdd { score: score@, member: member@, key: key@ },
            SortedSetCommand::ZRem { key, member } => SortedSetRequest::ZRem { key: key@, member: member@ },
            SortedSetCommand::ZRange { key, start, end } => SortedSetRequest::ZRange { key: key@, start, end },
            SortedSetCommand::ZScore { key, member } => SortedSetRequest::ZScore { key: key@, member: member@ },
        }
    }
}

/// A command, as read from a line: a command on one kind of value.
#[derive(Clone, Debug, PartialEq, Eq)]
pub enum Command {
    Scalar(ScalarCommand),
    List(ListCommand),
    Members(SetCommand),
    Sorted(SortedSetCommand),
}

/// What a command says: the command with the texts of its strings.
pub enum Request {
    Scalar(ScalarRequest),
    List(ListRequest),
    Members(SetRequest),
    Sorted(SortedSetRequest),
}

impl View for Command {
    type V = Request;

    open spec fn view(&self) -> Request {
        match *self {
            Command::Scalar(c) => Request::Scalar(c@),
            Command::List(c) => Request::List(c@),
            Command::Members(c) => Request::Members(c@),
            Command::Sorted(c) => Request::Sorted(c@),
        }
    }
}

/// The index that `word` writes, if it writes one.
pub open spec fn index_value(word: Seq<char>) -> Option<nat> {
    unsigned_value(word, usize::MAX as nat)
}

/// The command that the words of a line make. A command has a fixed first
/// word, in capitals, and a fixed number of words.
pub open spec fn read_command(w: Seq<Seq<char>>) -> Result<Request, ParseError> {
    if w.len() == 5 && w[0] == "SET"@ && w[3] == "EXP"@ {
        match unsigned_value(w[4], u64::MAX as nat) {
            Some(ttl) => Ok(Request::Scalar(ScalarRequest::SetValue { key: w[1], value: w[2], ttl: Some(ttl as u64) })),
            None => Err(ParseError::InvalidTtl),
        }
    } else if w.len() == 3 && w[0] == "SET"@ {
        Ok(Request::Scalar(ScalarRequest::SetValue { key: w[1], value: w[2], ttl: None }))
    } else if w.len() == 2 && w[0] == "GET"@ {
        Ok(Request::Scalar(ScalarRequest::Get { key: w[1] }))
    } else if w.len() == 2 && w[0] == "DEL"@ {
        Ok(Request::Scalar(ScalarRequest::Del { key: w[1] }))
    } else if w.len() == 3 && w[0] == "LPUSH"@ {
        Ok(Request::List(ListRequest::LPush { key: w[1], value: w[2] }))
    } else if w.len() == 3 && w[0] == "RPUSH"@ {
        Ok(Request::List(ListRequest::RPush { key: w[1], value: w[2] }))
    } else if w.len() == 2 && w[0] == "LPOP"@ {
        Ok(Request::List(ListRequest::LPop { key: w[1] }))
    } else if w.len() == 2 && w[0] == "RPOP"@ {
        Ok(Request::List(ListRequest::RPop { key: w[1] }))
    } else if w.len() == 4 && w[0] == "LRANGE"@ {
        match (index_value(w[1]), index_value(w[2])) {
            (Some(start), Some(end)) => Ok(
                Request::List(ListRequest::LRange { start: start as usize, end: end as usize, key: w[3] }),
            ),
            _ => Err(ParseError::InvalidStartIndex),
        }
    } else if w.len() == 3 && w[0] == "SADD"@ {
        Ok(Request::Members(SetRequest::SAdd { key: w[1], value: w[2] }))
    } else if w.len() == 3 && w[0] == "SREM"@ {
        Ok(Request::Members(SetRequest::SRem { key: w[1], value: w[2] }))
    } else if w.len() == 2 && w[0] == "SMEMBERS"@ {
        Ok(Request::Members(SetRequest::SMembers { key: w[1] }))
    } else if w.len() == 3 && w[0] == "SISMEMBER"@ {
        Ok(Request::Members(SetRequest::SIsMember { key: w[1], member: w[2] }))
    } else if w.len() == 4 && w[0] == "ZADD"@ {
        Ok(Request::Sorted(SortedSetRequest::ZAdd { score: w[1], member: w[2], key: w[3] }))
    } else if w.len() == 3 && w[0] == "ZREM"@ {
        Ok(Request::Sorted(SortedSetRequest::ZRem { key: w[1], member: w[2] }))
    } else if w.len() == 4 && w[0] == "ZRANGE"@ {
        match index_value(w[2]) {
            Some(start) => match index_value(w[3]) {
                Some(end) => Ok(
                    Request::Sorted(SortedSetRequest::ZRange { key: w[1], start: start as usize, end: end as usize }),
                ),
                None => Err(ParseError::InvalidEndIndex),
            },
            None => Err(ParseError::InvalidStartIndex),
        }
    } else if w.len() == 3 && w[0] == "ZSCORE"@ {
        Ok(Request::Sorted(SortedSetRequest::ZScore { key: w[1], member: w[2] }))
    } else {
        Err(ParseError::UnknownCommand)
    }
}

/// Reads `word` as an index.
fn parse_index(word: &str) -> (index: Option<usize>)
    ensures
        match index_value(word@) {
            Some(n) => index == Some(n as usize),
            None => index is None,
        },
{
    match parse_unsigned(word, usize::MAX as u64) {
        Some(n) => Some(n as usize),
        None => None,
    }
}

/// Tests whether word `at` of `tokens` is the keyword `keyword`.
fn is_keyword(tokens: &Vec<String>, at: usize, keyword: &str) -> (same: bool)
    requires
        at < tokens@.len(),
    ensures
        same == (texts(tokens@)[at as int] == keyword@),
{
    same_text(tokens[at].as_str(), keyword)
}

/// A copy of word `at` of `tokens`.
fn word(tokens: &Vec<String>, at: usize) -> (copy: String)
    requires
        at < tokens@.len(),
    ensures
        copy@ == texts(tokens@)[at as int],
{
    tokens[at].clone()
}

/// Reads a command line: splits it into words at whitespace and matches
/// them against the commands. A number that cannot be read is an error of
/// its own kind; any other line that is no command is unknown.
pub fn parse_command(line: &str) -> (command: Result<Command, ParseError>)
    ensures
        match command {
            Ok(c) => read_command(words(line@)) == Ok::<Request, ParseError>(c@),
            Err(e) => read_command(words(line@)) == Err::<Request, ParseError>(e),
        },
{
    let tokens = split_words(line);
    let n = tokens.len();
    if n < 2 || n > 5 {
        return Err(ParseError::UnknownCommand);
    }
    if n == 5 {
        if is_keyword(&tokens, 0, "SET") && is_keyword(&tokens, 3, "EXP") {
            return match parse_unsigned(tokens[4].as_str(), u64::MAX) {
                Some(ttl) => Ok(
                    Command::Scalar(ScalarCommand::SetValue { key: word(&tokens, 1), value: word(&tokens, 2), ttl: Some(ttl) }),
                ),
                None => Err(ParseError::InvalidTtl),
            };
        }
        return Err(ParseError::UnknownCommand);
    }
    if n == 2 {
        let key = word(&tokens, 1);
        return if is_keyword(&tokens, 0, "GET") {
            Ok(Command::Scalar(ScalarCommand::Get { key }))
        } else if is_keyword(&tokens, 0, "DEL") {
            Ok(Command::Scalar(ScalarCommand::Del { key }))
        } else if is_keyword(&tokens, 0, "LPOP") {
            Ok(Command::List(ListCommand::LPop { key }))
        } else if is_keyword(&tokens, 0, "RPOP") {
            Ok(Command::List(ListCommand::RPop { key }))
        } else if is_keyword(&tokens, 0, "SMEMBERS") {
            Ok(Command::Members(SetCommand::SMembers { key }))
        } else {
            Err(ParseError::UnknownCommand)
        };
    }
    if n == 3 {
        let first = word(&tokens, 1);
        let second = word(&tokens, 2);
        return if is_keyword(&tokens, 0, "SET") {
            Ok(Command::Scalar(ScalarCommand::SetValue { key: first, value: second, ttl: None }))
        } else if is_keyword(&tokens, 0, "LPUSH") {
            Ok(Command::List(ListCommand::LPush { key: first, value: second }))
        } else if is_keyword(&tokens, 0, "RPUSH") {
            Ok(Command::List(ListCommand::RPush { key: first, value: second }))
        } else if is_keyword(&tokens, 0, "SADD") {
            Ok(Command::Members(SetCommand::SAdd { key: first, value: second }))
        } else if is_keyword(&tokens, 0, "SREM") {
            Ok(Command::Members(SetCommand::SRem { key: first, value: second }))
        } else if is_keyword(&tokens, 0, "SISMEMBER") {
            Ok(Command::Members(SetCommand::SIsMember { key: first, member: second }))
        } else if is_keyword(&tokens, 0, "ZREM") {
            Ok(Command::Sorted(SortedSetCommand::ZRem { key: first, member: second }))
        } else if is_keyword(&tokens, 0, "ZSCORE") {
            Ok(Command::Sorted(SortedSetCommand::ZScore { key: first, member: second }))
        } else {
            Err(ParseError::UnknownCommand)
        };
    }
    if is_keyword(&tokens, 0, "LRANGE") {
        let start = parse_index(tokens[1].as_str());
        let end = parse_index(tokens[2].as_str());
        match (start, end) {
            (Some(start), Some(end)) => Ok(Command::List(ListCommand::LRange { start, end, key: word(&tokens, 3) })),
            _ => Err(ParseError::InvalidStartIndex),
        }
    } else if is_keyword(&tokens, 0, "ZADD") {
        Ok(Command::Sorted(SortedSetCommand::ZAdd { score: word(&tokens, 1), member: word(&tokens, 2), key: word(&tokens, 3) }))
    } else if is_keyword(&tokens, 0, "ZRANGE") {
        match parse_index(tokens[2].as_str()) {
            Some(start) => match parse_index(tokens[3].as_str()) {
                Some(end) => Ok(Command::Sorted(SortedSetCommand::ZRange { key: word(&tokens, 1), start, end })),
                None => Err(ParseError::InvalidEndIndex),
            },
            None => Err(ParseError::InvalidStartIndex),
        }
    } else {
        Err(ParseError::UnknownCommand)
    }
}

} // verus!
