//! The execution of commands on the store. A command works on one kind of
//! value, and on the collections of that kind alone.

use crate::command::reply::{Reply, Response};
use crate::command::{
    parse_command, read_command, Command, ListCommand, ListRequest, ParseError, Request,
    ScalarCommand, ScalarRequest, SetCommand, SetRequest, SortedSetCommand, SortedSetRequest,
};
use crate::database::data_structure::{RList, RSets, RSortedSet, Score};
use crate::database::db::{
    add_member, add_scored, back_of, changes_score, deadline, expired, front_of, has_expired,
    instants, is_member, list_views, lists_members, lookup, members, pop_back, pop_front,
    popped_back, popped_front, push_back, push_front, pushed_back, pushed_front, put_expiry,
    put_value, range, range_of, ranked_range, ranked_range_of, remove_member, remove_scored,
    remove_value, score_of, score_views, scored, scores_at, set_at, set_views, sets_wf,
    sorted_sets_wf, unscored, value_of, value_texts, with_member, without_member, Database, State,
};
use crate::table::Table;
use crate::text::words;
use vstd::prelude::*;

verus! {

/// The scalar values after a command on scalar values at `now`. Reading a
/// value that has expired deletes it.
pub open spec fn values_after(
    values: Map<Seq<char>, Seq<char>>,
    expiry: Map<Seq<char>, nat>,
    request: ScalarRequest,
    now: u64,
) -> Map<Seq<char>, Seq<char>> {
    match request {
        ScalarRequest::SetValue { key, value, ttl } => values.insert(key, value),
        ScalarRequest::Get { key } => if has_expired(expiry, key, now) {
            values.remove(key)
        } else {
            values
        },
        ScalarRequest::Del { key } => values.remove(key),
    }
}

/// The expiry instants after a command on scalar values at `now`. Setting
/// a value without a time to live leaves the instant of its key as it is.
pub open spec fn expiry_after(
    expiry: Map<Seq<char>, nat>,
    request: ScalarRequest,
    now: u64,
) -> Map<Seq<char>, nat> {
    match request {
        ScalarRequest::SetValue { key, value, ttl } => match ttl {
            Some(seconds) => expiry.insert(key, deadline(now, seconds)),
            None => expiry,
        },
        ScalarRequest::Get { key } => if has_expired(expiry, key, now) {
            expiry.remove(key)
        } else {
            expiry
        },
        ScalarRequest::Del { key } => expiry.remove(key),
    }
}

/// The reply to a value that may be there: the value, or that it is
/// missing.
pub open spec fn bulk_or_missing(value: Option<Seq<char>>) -> Response {
    match value {
        Some(v) => Response::Bulk(v),
        None => Response::Missing,
    }
}

/// The reply to a command on scalar values at `now`.
pub open spec fn scalar_reply(
    values: Map<Seq<char>, Seq<char>>,
    expiry: Map<Seq<char>, nat>,
    request: ScalarRequest,
    now: u64,
) -> Response {
    match request {
        ScalarRequest::SetValue { key, value, ttl } => Response::Okay,
        ScalarRequest::Get { key } => if has_expired(expiry, key, now) {
            Response::Missing
        } else {
            bulk_or_missing(lookup(values, key))
        },
        ScalarRequest::Del { key } => Response::Deleted(values.contains_key(key)),
    }
}

/// Carries out a command on scalar values at `now`.
pub fn execute_scalar(
    values: &mut Table<String>,
    expiry: &mut Table<u128>,
    command: ScalarCommand,
    now: u64,
) -> (reply: Reply)
    requires
        old(values).wf(),
        old(expiry).wf(),
    ensures
        final(values).wf(),
        final(expiry).wf(),
        value_texts(final(values)@) == values_after(
            value_texts(old(values)@),
            instants(old(expiry)@),
            command@,
            now,
        ),
        instants(final(expiry)@) == expiry_after(instants(old(expiry)@), command@, now),
        reply@ == scalar_reply(value_texts(old(values)@), instants(old(expiry)@), command@, now),
{
    match command {
        ScalarCommand::SetValue { key, value, ttl } => {
            put_value(values, key.clone(), value);
            if let Some(seconds) = ttl {
                put_expiry(expiry, key, seconds, now);
            }
            Reply::Okay
        },
        ScalarCommand::Get { key } => {
            if expired(expiry, key.as_str(), now) {
                remove_value(values, expiry, key.as_str());
                Reply::Missing
            } else {
                match value_of(values, key.as_str()) {
                    Some(value) => Reply::Bulk(value),
                    None => Reply::Missing,
                }
            }
        },
        ScalarCommand::Del { key } => Reply::Deleted(remove_value(values, expiry, key.as_str())),
    }
}

/// The lists after a command on lists.
pub open spec fn lists_after(lists: Map<Seq<char>, Seq<Seq<char>>>, request: ListRequest) -> Map<
    Seq<char>,
    Seq<Seq<char>>,
> {
    match request {
        ListRequest::LPush { key, value } => pushed_front(lists, key, value),
        ListRequest::RPush { key, value } => pushed_back(lists, key, value),
        ListRequest::LPop { key } => popped_front(lists, key),
        ListRequest::RPop { key } => popped_back(lists, key),
        ListRequest::LRange { start, end, key } => lists,
    }
}

/// The reply to a value taken off a list: the value, or that there was
/// nothing to take.
pub open spec fn bulk_or_okay(value: Option<Seq<char>>) -> Response {
    match value {
        Some(v) => Response::Bulk(v),
        None => Response::Okay,
    }
}

/// The reply to a command on lists.
pub open spec fn list_reply(lists: Map<Seq<char>, Seq<Seq<char>>>, request: ListRequest) -> Response {
    match request {
        ListRequest::LPush { key, value } => Response::Okay,
        ListRequest::RPush { key, value } => Response::Okay,
        ListRequest::LPop { key } => bulk_or_okay(front_of(lists, key)),
        ListRequest::RPop { key } => bulk_or_okay(back_of(lists, key)),
        ListRequest::LRange { start, end, key } => match range_of(lists, start, end, key) {
            Some(values) => Response::Array(values),
            None => Response::NotFound,
        },
    }
}

/// Carries out a command on lists.
pub fn execute_list(lists: &mut Table<RList>, command: ListCommand) -> (reply: Reply)
    requires
        old(lists).wf(),
    ensures
        final(lists).wf(),
        list_views(final(lists)@) == lists_after(list_views(old(lists)@), command@),
        reply@ == list_reply(list_views(old(lists)@), command@),
{
    match command {
        ListCommand::LPush { key, value } => {
            push_front(lists, key, value);
            Reply::Okay
        },
        ListCommand::RPush { key, value } => {
            push_back(lists, key, value);
            Reply::Okay
        },
        ListCommand::LPop { key } => match pop_front(lists, key.as_str()) {
            Some(value) => Reply::Bulk(value),
            None => Reply::Okay,
        },
        ListCommand::RPop { key } => match pop_back(lists, key.as_str()) {
            Some(value) => Reply::Bulk(value),
            None => Reply::Okay,
        },
        ListCommand::LRange { start, end, key } => match range(lists, start, end, key.as_str()) {
            Some(values) => Reply::Array(values),
            None => Reply::NotFound,
        },
    }
}

/// The sets after a command on sets.
pub open spec fn sets_after(sets: Map<Seq<char>, Set<Seq<char>>>, request: SetRequest) -> Map<
    Seq<char>,
    Set<Seq<char>>,
> {
    match request {
        SetRequest::SAdd { key, value } => with_member(sets, key, value),
        SetRequest::SRem { key, value } => without_member(sets, key, value),
        SetRequest::SMembers { key } => sets,
        SetRequest::SIsMember { key, member } => sets,
    }
}

/// Whether `response` answers a command on sets. The members of a set
/// come in no particular order: any sequence that holds each once answers.
pub open spec fn set_answer(
    sets: Map<Seq<char>, Set<Seq<char>>>,
    request: SetRequest,
    response: Response,
) -> bool {
    match request {
        SetRequest::SAdd { key, value } => response == Response::Flag(
            !set_at(sets, key).contains(value),
        ),
        SetRequest::SRem { key, value } => response == Response::Flag(
            set_at(sets, key).contains(value),
        ),
        SetRequest::SMembers { key } => match response {
            Response::Array(values) => lists_members(sets, key, Some(values)),
            Response::NotFound => lists_members(sets, key, None),
            _ => false,
        },
        SetRequest::SIsMember { key, member } => response == Response::Found(
            set_at(sets, key).contains(member),
        ),
    }
}

/// Carries out a command on sets.
pub fn execute_set(sets: &mut Table<RSets>, command: SetCommand) -> (reply: Reply)
    requires
        sets_wf(old(sets)),
    ensures
        sets_wf(final(sets)),
        set_views(final(sets)@) == sets_after(set_views(old(sets)@), command@),
        set_answer(set_views(old(sets)@), command@, reply@),
{
    match command {
        SetCommand::SAdd { key, value } => Reply::Flag(add_member(sets, key, value)),
        SetCommand::SRem { key, value } => Reply::Flag(
            remove_member(sets, key.as_str(), value.as_str()),
        ),
        SetCommand::SMembers { key } => match members(sets, key.as_str()) {
            Some(values) => Reply::Array(values),
            None => Reply::NotFound,
        },
        SetCommand::SIsMember { key, member } => Reply::Found(
            is_member(sets, key.as_str(), member.as_str()),
        ),
    }
}

/// The sorted sets after a command on sorted sets. `score` is the number
/// that the score of `ZAdd` writes, if it writes one; without one the
/// command changes nothing.
pub open spec fn sorted_sets_after(
    sorted_sets: Map<Seq<char>, Map<Seq<char>, Score>>,
    request: SortedSetRequest,
    score: Option<Score>,
) -> Map<Seq<char>, Map<Seq<char>, Score>> {
    match request {
        SortedSetRequest::ZAdd { score: written, member, key } => match score {
            Some(number) => scored(sorted_sets, key, number, member),
            None => sorted_sets,
        },
        SortedSetRequest::ZRem { key, member } => unscored(sorted_sets, key, member),
        SortedSetRequest::ZRange { key, start, end } => sorted_sets,
        SortedSetRequest::ZScore { key, member } => sorted_sets,
    }
}

/// The reply to a command on sorted sets. `score` is the number that the
/// score of `ZAdd` writes, if it writes one; without one the score is
/// invalid.
pub open spec fn sorted_set_reply(
    sorted_sets: Map<Seq<char>, Map<Seq<char>, Score>>,
    request: SortedSetRequest,
    score: Option<Score>,
) -> Response {
    match request {
        SortedSetRequest::ZAdd { score: written, member, key } => match score {
            Some(number) => Response::Integer(
                changes_score(scores_at(sorted_sets, key), member, number),
            ),
            None => Response::Error(ParseError::InvalidScore),
        },
        SortedSetRequest::ZRem { key, member } => Response::Integer(
            scores_at(sorted_sets, key).contains_key(member),
        ),
        SortedSetRequest::ZRange { key, start, end } => match ranked_range_of(
            sorted_sets,
            key,
            start,
            end,
        ) {
            Some(values) => Response::Array(values),
            None => Response::Missing,
        },
        SortedSetRequest::ZScore { key, member } => match lookup(
            scores_at(sorted_sets, key),
            member,
        ) {
            Some(number) => Response::Score(number),
            None => Response::Missing,
        },
    }
}

/// Carries out a command on sorted sets. `score` is the number that the
/// score of `ZAdd` writes, if it writes one; no other command reads it.
pub fn execute_sorted_set(
    sorted_sets: &mut Table<RSortedSet>,
    command: SortedSetCommand,
    score: Option<Score>,
) -> (reply: Reply)
    requires
        sorted_sets_wf(old(sorted_sets)),
    ensures
        sorted_sets_wf(final(sorted_sets)),
        score_views(final(sorted_sets)@) == sorted_sets_after(
            score_views(old(sorted_sets)@),
            command@,
            score,
        ),
        reply@ == sorted_set_reply(score_views(old(sorted_sets)@), command@, score),
{
    match command {
        SortedSetCommand::ZAdd { score: written, member, key } => match score {
            Some(number) => Reply::Integer(add_scored(sorted_sets, key, number, member)),
            None => Reply::Error(ParseError::InvalidScore),
        },
        SortedSetCommand::ZRem { key, member } => Reply::Integer(
            remove_scored(sorted_sets, key.as_str(), member),
        ),
        SortedSetCommand::ZRange { key, start, end } => match ranked_range(
            sorted_sets,
            key.as_str(),
            start,
            end,
        ) {
            Some(values) => Reply::Array(values),
            None => Reply::Missing,
        },
        SortedSetCommand::ZScore { key, member } => match score_of(
            sorted_sets,
            key.as_str(),
            member.as_str(),
        ) {
            Some(number) => Reply::Score(number),
            None => Reply::Missing,
        },
    }
}

/// The store after a command at `now`: the collections of the command's
/// kind change as the command says, the others stay.
pub open spec fn after(state: State, request: Request, score: Option<Score>, now: u64) -> State {
    match request {
        Request::Scalar(r) => State {
            values: values_after(state.values, state.expiry, r, now),
            expiry: expiry_after(state.expiry, r, now),
            ..state
        },
        Request::List(r) => State { lists: lists_after(state.lists, r), ..state },
        Request::Members(r) => State { sets: sets_after(state.sets, r), ..state },
        Request::Sorted(r) => State {
            sorted_sets: sorted_sets_after(state.sorted_sets, r, score),
            ..state
        },
    }
}

/// Whether `response` answers a command at `now`.
pub open spec fn answers(
    state: State,
    request: Request,
    score: Option<Score>,
    now: u64,
    response: Response,
) -> bool {
    match request {
        Request::Scalar(r) => response == scalar_reply(state.values, state.expiry, r, now),
        Request::List(r) => response == list_reply(state.lists, r),
        Request::Members(r) => set_answer(state.sets, r, response),
        Request::Sorted(r) => response == sorted_set_reply(state.sorted_sets, r, score),
    }
}

/// Whether carrying out a command at `now` takes the store from `before`
/// to `state` and is answered by `response`.
pub open spec fn carries_out(
    before: State,
    request: Request,
    score: Option<Score>,
    now: u64,
    state: State,
    response: Response,
) -> bool {
    state == after(before, request, score, now) && answers(before, request, score, now, response)
}

/// Whether reading the line `line` and carrying its command out at `now`
/// takes the store from `before` to `state` and is answered by `response`.
/// A line that is not accepted changes nothing and is answered by its
/// error.
pub open spec fn runs(
    before: State,
    line: Seq<char>,
    score: Option<Score>,
    now: u64,
    state: State,
    response: Response,
) -> bool {
    match read_command(words(line)) {
        Ok(request) => carries_out(before, request, score, now, state, response),
        Err(error) => state == before && response == Response::Error(error),
    }
}

impl Command {
    /// The score of the command as written, if the command has one.
    pub fn score_word(&self) -> (written: Option<&str>)
        ensures
            match self@ {
                Request::Sorted(SortedSetRequest::ZAdd { score, member, key }) => written is Some
                    && written->0@ == score,
                _ => written is None,
            },
    {
        match self {
            Command::Sorted(SortedSetCommand::ZAdd { score, member, key }) => Some(score.as_str()),
            _ => None,
        }
    }
}

impl Database {
    /// Carries out `command` at `now`. `score` is the number that the
    /// score of the command writes, if the command has a score and the
    /// score writes a number; a command without a score does not read it.
    pub fn execute_at(&mut self, command: Command, score: Option<Score>, now: u64) -> (reply: Reply)
        requires
            old(self).wf(),
        ensures
            final(self).wf(),
            carries_out(old(self)@, command@, score, now, final(self)@, reply@),
    {
        match command {
            Command::Scalar(c) => execute_scalar(&mut self.db, &mut self.expiry, c, now),
            Command::List(c) => execute_list(&mut self.list, c),
            Command::Members(c) => execute_set(&mut self.set, c),
            Command::Sorted(c) => execute_sorted_set(&mut self.sorted_set, c, score),
        }
    }

    /// Carries out `command`, as `execute_at` does, at the time that the
    /// store's clock tells.
    pub fn execute(&mut self, command: Command, score: Option<Score>) -> (reply: Reply)
        requires
            old(self).wf(),
        ensures
            final(self).wf(),
            exists|now: u64| carries_out(old(self)@, command@, score, now, final(self)@, reply@),
    {
        let now = self.clock.now();
        self.execute_at(command, score, now)
    }
}

/// Reads the command line `command` and carries the command out at `now`.
/// A line that is not accepted changes nothing, and the reply is its error.
/// `score` is the number that the line's score writes, if the line has a
/// score and the score writes a number.
pub fn command_parser_at(db: &mut Database, command: &str, score: Option<Score>, now: u64) -> (reply:
    Reply)
    requires
        old(db).wf(),
    ensures
        final(db).wf(),
        runs(old(db)@, command@, score, now, final(db)@, reply@),
{
    match parse_command(command) {
        Ok(parsed) => db.execute_at(parsed, score, now),
        Err(error) => Reply::Error(error),
    }
}

/// Reads the command line `command` and carries the command out, as
/// `command_parser_at` does, at the time that the store's clock tells.
pub fn command_parser(db: &mut Database, command: &str, score: Option<Score>) -> (reply: Reply)
    requires
        old(db).wf(),
    ensures
        final(db).wf(),
        exists|now: u64| runs(old(db)@, command@, score, now, final(db)@, reply@),
{
    let now = db.clock.now();
    command_parser_at(db, command, score, now)
}

} // verus!
