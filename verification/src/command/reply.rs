//! Replies, and the text that carries each over the wire.

use crate::command::ParseError;
use crate::database::data_structure::Score;
use crate::text::{decimal, decimal_string, texts};
use vstd::prelude::*;
use vstd::utf8::*;

verus! {

/// The reply to a command.
#[derive(Clone, Debug, PartialEq, Eq)]
pub enum Reply {
    /// The command was carried out and has nothing to tell.
    Okay,
    /// There is no such value.
    Missing,
    /// A scalar value was deleted, or there was none to delete.
    Deleted(bool),
    /// A value.
    Bulk(String),
    /// Values, in order.
    Array(Vec<String>),
    /// There is no such list or set.
    NotFound,
    /// Whether a set changed.
    Flag(bool),
    /// Whether a value was found in a set.
    Found(bool),
    /// Whether a sorted set changed.
    Integer(bool),
    /// A score. Its text is written by the one who sends the reply.
    Score(Score),
    /// The line was not accepted.
    Error(ParseError),
}

/// What a reply says: the reply with the texts of its strings.
pub enum Response {
    Okay,
    Missing,
    Deleted(bool),
    Bulk(Seq<char>),
    Array(Seq<Seq<char>>),
    NotFound,
    Flag(bool),
    Found(bool),
    Integer(bool),
    Score(Score),
    Error(ParseError),
}

impl View for Reply {
    type V = Response;

    open spec fn view(&self) -> Response {
        match *self {
            Reply::Okay => Response::Okay,
            Reply::Missing => Response::Missing,
            Reply::Deleted(held) => Response::Deleted(held),
            Reply::Bulk(value) => Response::Bulk(value@),
            Reply::Array(values) => Response::Array(texts(values@)),
            Reply::NotFound => Response::NotFound,
            Reply::Flag(changed) => Response::Flag(changed),
            Reply::Found(found) => Response::Found(found),
            Reply::Integer(changed) => Response::Integer(changed),
            Reply::Score(score) => Response::Score(score),
            Reply::Error(error) => Response::Error(error),
        }
    }
}

/// The text of a value on the wire: `$`, the number of bytes of the value
/// in UTF-8, a line end, the value, and a line end.
pub open spec fn bulk_text(value: Seq<char>) -> Seq<char> {
    "$"@ + decimal(encode_utf8(value).len()) + "\r\n"@ + value + "\r\n"@
}

/// The texts of values on the wire, one after the other.
pub open spec fn bulks_text(values: Seq<Seq<char>>) -> Seq<char>
    decreases values.len(),
{
    if values.len() == 0 {
        Seq::empty()
    } else {
        bulks_text(values.drop_last()) + bulk_text(values.last())
    }
}

/// The text of a sequence of values on the wire: `*`, the number of
/// values, a line end, and the text of each value.
pub open spec fn array_text(values: Seq<Seq<char>>) -> Seq<char> {
    "*"@ + decimal(values.len()) + "\r\n"@ + bulks_text(values)
}

/// What an error says in words.
pub open spec fn error_message(error: ParseError) -> Seq<char> {
    match error {
        ParseError::InvalidTtl => "Invalid time to live value"@,
        ParseError::InvalidStartIndex => "Invalid start index"@,
        ParseError::InvalidEndIndex => "Invalid end index"@,
        ParseError::InvalidScore => "Invalid score"@,
        ParseError::UnknownCommand => "Unknow commnd, please try again!!"@,
    }
}

/// The text of an error on the wire. For an unknown command it is `-ERR`,
/// a line end and the message; for a number that cannot be read it is
/// `-ERR`, a space, the message and a line end.
pub open spec fn error_text(error: ParseError) -> Seq<char> {
    match error {
        ParseError::UnknownCommand => "-ERR\r\n"@ + error_message(error),
        _ => "-ERR "@ + error_message(error) + "\r\n"@,
    }
}

/// The text of a reply on the wire. `score_text` is the text of the score
/// of a reply that carries one; no other reply has any of it.
pub open spec fn wire(response: Response, score_text: Seq<char>) -> Seq<char> {
    match response {
        Response::Okay => "+OK\r\n"@,
        Response::Missing => "$-1\r\n"@,
        Response::Deleted(held) => if held {
            "$-1\r\n"@
        } else {
            "$-0\r\n"@
        },
        Response::Bulk(value) => bulk_text(value),
        Response::Array(values) => array_text(values),
        Response::NotFound => "NOT FOUND\r\n"@,
        Response::Flag(changed) => if changed {
            "$1\r\n"@
        } else {
            "$0\r\n"@
        },
        Response::Found(found) => if found {
            "$FOUND!\r\n"@
        } else {
            "$NOT FOUND!\r\n"@
        },
        Response::Integer(changed) => if changed {
            ":1\r\n"@
        } else {
            ":0\r\n"@
        },
        Response::Score(_) => bulk_text(score_text),
        Response::Error(error) => error_text(error),
    }
}

impl ParseError {
    /// What the error says in words.
    pub fn message(&self) -> (text: &'static str)
        ensures
            text@ == error_message(*self),
    {
        match self {
            ParseError::InvalidTtl => "Invalid time to live value",
            ParseError::InvalidStartIndex => "Invalid start index",
            ParseError::InvalidEndIndex => "Invalid end index",
            ParseError::InvalidScore => "Invalid score",
            ParseError::UnknownCommand => "Unknow commnd, please try again!!",
        }
    }
}

/// Writes a value for the wire.
pub fn bulk(value: &str) -> (text: String)
    ensures
        text@ == bulk_text(value@),
{
    let mut text = String::from_str("$");
    text.append(decimal_string(value.as_bytes().len()).as_str());
    text.append("\r\n");
    text.append(value);
    text.append("\r\n");
    assert(text@ =~= bulk_text(value@));
    text
}

/// Writes a sequence of values for the wire.
pub fn array(values: &Vec<String>) -> (text: String)
    ensures
        text@ == array_text(texts(values@)),
{
    let mut text = String::from_str("*");
    text.append(decimal_string(values.len()).as_str());
    text.append("\r\n");
    let ghost head = text@;
    let mut i: usize = 0;
    assert(texts(values@).take(0) =~= Seq::<Seq<char>>::empty());
    assert(text@ =~= head + bulks_text(texts(values@).take(0)));
    while i < values.len()
        invariant
            i <= values@.len(),
            text@ == head + bulks_text(texts(values@).take(i as int)),
        decreases values.len() - i,
    {
        let item = bulk(values[i].as_str());
        text.append(item.as_str());
        proof {
            let read = texts(values@).take(i as int);
            let next = texts(values@).take(i + 1);
            assert(next.drop_last() =~= read);
            assert(next.last() == values@[i as int]@);
            assert(text@ =~= head + bulks_text(next));
        }
        i += 1;
    }
    assert(texts(values@).take(i as int) =~= texts(values@));
    text
}

impl Reply {
    /// Writes the reply for the wire. `score_text` is the score of a
    /// `Score` reply written as a decimal number; no other reply reads it.
    pub fn encode(&self, score_text: &str) -> (text: String)
        ensures
            text@ == wire(self@, score_text@),
    {
        match self {
            Reply::Okay => String::from_str("+OK\r\n"),
            Reply::Missing => String::from_str("$-1\r\n"),
            Reply::Deleted(held) => if *held {
                String::from_str("$-1\r\n")
            } else {
                String::from_str("$-0\r\n")
            },
            Reply::Bulk(value) => bulk(value.as_str()),
            Reply::Array(values) => array(values),
            Reply::NotFound => String::from_str("NOT FOUND\r\n"),
            Reply::Flag(changed) => if *changed {
                String::from_str("$1\r\n")
            } else {
                String::from_str("$0\r\n")
            },
            Reply::Found(found) => if *found {
                String::from_str("$FOUND!\r\n")
            } else {
                String::from_str("$NOT FOUND!\r\n")
            },
            Reply::Integer(changed) => if *changed {
                String::from_str(":1\r\n")
            } else {
                String::from_str(":0\r\n")
            },
            Reply::Score(_) => bulk(score_text),
            Reply::Error(error) => match error {
                ParseError::UnknownCommand => {
                    let mut text = String::from_str("-ERR\r\n");
                    text.append(error.message());
                    text
                },
                _ => {
                    let mut text = String::from_str("-ERR ");
                    text.append(error.message());
                    text.append("\r\n");
                    text
                },
            },
        }
    }
}

} // verus!
