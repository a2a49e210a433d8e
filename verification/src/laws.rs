//! What holds of the store over several operations.

use crate::command::execute::{after, answers};
use crate::command::reply::Response;
use crate::command::{ListRequest, Request, ScalarRequest, SetRequest, SortedSetRequest};
use crate::database::data_structure::{
    inclusive_range, is_ranking, lemma_ranked_before_strict_total, Score,
};
use crate::database::db::{
    changes_score, deadline, lookup, scores_at, set_at, State,
};
use vstd::prelude::*;

verus! {

/// A value that was set is the value that is read, as long as it has not
/// expired: reading `key` at `later` gives the `value` that was set last.
pub proof fn lemma_get_after_set(
    state: State,
    key: Seq<char>,
    value: Seq<char>,
    ttl: Option<u64>,
    now: u64,
    later: u64,
)
    requires
        !state.set(key, value, ttl, now).is_expired(key, later),
    ensures
        state.set(key, value, ttl, now).get(key, later) == Some(value),
        state.set(key, value, ttl, now).after_get(key, later) == state.set(key, value, ttl, now),
{
}

/// The scalar key that a command may write to: that of a command that
/// sets, deletes or reads a scalar value. Reading deletes a value that
/// has expired.
pub open spec fn scalar_key(request: Request) -> Option<Seq<char>> {
    match request {
        Request::Scalar(ScalarRequest::SetValue { key, value, ttl }) => Some(key),
        Request::Scalar(ScalarRequest::Get { key }) => Some(key),
        Request::Scalar(ScalarRequest::Del { key }) => Some(key),
        _ => None,
    }
}

/// A command leaves the scalar value and the expiry instant of every key
/// but its own as they are; a command on lists, sets or sorted sets leaves
/// all of them. So does reading a value that has not expired. The value
/// that was set last for a key therefore stays until it is set again,
/// deleted, or read after it has expired.
pub proof fn lemma_value_stays(
    state: State,
    request: Request,
    score: Option<Score>,
    now: u64,
    key: Seq<char>,
)
    requires
        scalar_key(request) != Some(key) || (request == Request::Scalar(ScalarRequest::Get { key })
            && !state.is_expired(key, now)),
    ensures
        lookup(after(state, request, score, now).values, key) == lookup(state.values, key),
        lookup(after(state, request, score, now).expiry, key) == lookup(state.expiry, key),
{
}

/// One command of a sequence: what it says, the number that its score
/// writes, and the time at which it is carried out.
pub struct Step {
    pub request: Request,
    pub score: Option<Score>,
    pub now: u64,
}

/// The store after the commands of `steps`, carried out in order.
pub open spec fn run(state: State, steps: Seq<Step>) -> State
    decreases steps.len(),
{
    if steps.len() == 0 {
        state
    } else {
        after(
            run(state, steps.drop_last()),
            steps.last().request,
            steps.last().score,
            steps.last().now,
        )
    }
}

/// Whether a command leaves the scalar value of `key` alone: it neither
/// sets nor deletes it, and it does not read it after `expiry`, the
/// instant at which the value expires, if there is one.
pub open spec fn leaves_value(step: Step, key: Seq<char>, expiry: Option<nat>) -> bool {
    scalar_key(step.request) != Some(key) || (step.request == Request::Scalar(
        ScalarRequest::Get { key },
    ) && !(expiry is Some && step.now > expiry->0))
}

/// Through any sequence of commands that leave the scalar value of `key`
/// alone, the key keeps its value and its expiry instant.
pub proof fn lemma_value_stays_through(state: State, steps: Seq<Step>, key: Seq<char>)
    requires
        forall|i: int|
            0 <= i < steps.len() ==> leaves_value(
                #[trigger] steps[i],
                key,
                lookup(state.expiry, key),
            ),
    ensures
        lookup(run(state, steps).values, key) == lookup(state.values, key),
        lookup(run(state, steps).expiry, key) == lookup(state.expiry, key),
    decreases steps.len(),
{
    if steps.len() > 0 {
        let before = steps.drop_last();
        assert forall|i: int| 0 <= i < before.len() implies leaves_value(
            #[trigger] before[i],
            key,
            lookup(state.expiry, key),
        ) by {
            assert(before[i] == steps[i]);
        }
        lemma_value_stays_through(state, before, key);
        let last = steps.last();
        assert(leaves_value(steps[steps.len() - 1], key, lookup(state.expiry, key)));
        lemma_value_stays(run(state, before), last.request, last.score, last.now, key);
    }
}

/// Reading a key gives the value that was set for it last: after the
/// value was set, and after any commands since that neither set nor deleted
/// it nor read it when it had expired, reading the key at a time at which
/// the value has not expired gives that value.
pub proof fn lemma_get_returns_last_set(
    state: State,
    key: Seq<char>,
    value: Seq<char>,
    ttl: Option<u64>,
    now: u64,
    steps: Seq<Step>,
    later: u64,
)
    requires
        forall|i: int|
            0 <= i < steps.len() ==> leaves_value(
                #[trigger] steps[i],
                key,
                lookup(state.set(key, value, ttl, now).expiry, key),
            ),
        !state.set(key, value, ttl, now).is_expired(key, later),
    ensures
        run(state.set(key, value, ttl, now), steps).get(key, later) == Some(value),
{
    lemma_value_stays_through(state.set(key, value, ttl, now), steps, key);
}

/// A value set with a time to live of 0 is gone at every later instant:
/// reading it gives nothing, and takes the key out of the values and of
/// the expiry instants.
pub proof fn lemma_zero_ttl_expires(
    state: State,
    key: Seq<char>,
    value: Seq<char>,
    now: u64,
    later: u64,
)
    requires
        now < later,
    ensures
        state.set(key, value, Some(0), now).get(key, later) is None,
        !state.set(key, value, Some(0), now).after_get(key, later).values.contains_key(key),
        !state.set(key, value, Some(0), now).after_get(key, later).expiry.contains_key(key),
{
}

/// Setting a value without a time to live keeps the expiry instant that an
/// earlier setting gave the key.
pub proof fn lemma_bare_set_keeps_expiry(
    state: State,
    key: Seq<char>,
    first: Seq<char>,
    ttl: u64,
    now: u64,
    second: Seq<char>,
    later: u64,
)
    ensures
        state.set(key, first, Some(ttl), now).set(key, second, None, later).expiry[key] == deadline(
            now,
            ttl,
        ),
        state.set(key, second, None, later).expiry == state.expiry,
{
}

/// Giving a member a score again changes nothing when the score is equal
/// to the one it has, and gives the member the new score when it is not.
pub proof fn lemma_zadd_again(
    state: State,
    key: Seq<char>,
    member: Seq<char>,
    first: Score,
    second: Score,
)
    ensures
        changes_score(scores_at(state.zadd(key, first, member).sorted_sets, key), member, second)
            == (first.rank() != second.rank()),
        first.rank() == second.rank() ==> state.zadd(key, first, member).zadd(key, second, member)
            == state.zadd(key, first, member),
        first.rank() != second.rank() ==> lookup(
            scores_at(state.zadd(key, first, member).zadd(key, second, member).sorted_sets, key),
            member,
        ) == Some(second),
{
    let once = state.zadd(key, first, member);
    assert(once.sorted_sets.contains_key(key));
    assert(scores_at(once.sorted_sets, key).contains_key(member));
    if first.rank() == second.rank() {
        assert(once.zadd(key, second, member).sorted_sets =~= once.sorted_sets);
    }
}

/// A ranking lists each member once, and no other text: the index of a
/// sorted set holds no entry that the scores do not.
pub proof fn lemma_ranking_lists_each_once(scores: Map<Seq<char>, Score>, ranking: Seq<Seq<char>>)
    requires
        is_ranking(scores, ranking),
    ensures
        ranking.no_duplicates(),
        ranking.to_set() == scores.dom(),
{
    assert forall|i: int, j: int| 0 <= i < ranking.len() && 0 <= j < ranking.len() && i != j implies ranking[i]
        != ranking[j] by {
        lemma_ranked_before_strict_total(
            scores[ranking[i]],
            ranking[i],
            scores[ranking[j]],
            ranking[j],
            scores[ranking[i]],
            ranking[i],
        );
        if i < j {
            assert(ranked_before_at(scores, ranking, i, j));
        } else {
            assert(ranked_before_at(scores, ranking, j, i));
        }
    }
    assert(ranking.to_set() =~= scores.dom());
}

/// Whether member `i` of a ranking stands before member `j`.
pub open spec fn ranked_before_at(
    scores: Map<Seq<char>, Score>,
    ranking: Seq<Seq<char>>,
    i: int,
    j: int,
) -> bool {
    crate::database::data_structure::ranked_before(
        scores[ranking[i]],
        ranking[i],
        scores[ranking[j]],
        ranking[j],
    )
}

/// A range whose end lies before its start is empty.
pub proof fn lemma_inverted_range_is_empty<A>(s: Seq<A>, start: int, end: int)
    requires
        end < start,
    ensures
        inclusive_range(s, start, end) == Seq::<A>::empty(),
{
}

/// A range holds what lies between its ends: it is what is left of the
/// sequence when the first `start` items are skipped and at most
/// `end - start + 1` of the others are taken.
pub proof fn lemma_range_is_skip_and_take<A>(s: Seq<A>, start: int, end: int)
    requires
        0 <= start <= end,
    ensures
        inclusive_range(s, start, end).len() <= end - start + 1,
        forall|i: int|
            0 <= i < inclusive_range(s, start, end).len() ==> inclusive_range(s, start, end)[i]
                == s[start + i],
        inclusive_range(s, start, end).len() == end - start + 1 || start + inclusive_range(
            s,
            start,
            end,
        ).len() >= s.len(),
{
}

/// Members that are added to a set one after the other are all in it, in
/// whichever order they were added: the set is the same, and it holds what
/// it held and the two members.
pub proof fn lemma_sadd_any_order(state: State, key: Seq<char>, a: Seq<char>, b: Seq<char>)
    ensures
        state.sadd(key, a).sadd(key, b) == state.sadd(key, b).sadd(key, a),
        set_at(state.sadd(key, a).sadd(key, b).sets, key) == set_at(state.sets, key).insert(
            a,
        ).insert(b),
{
    let ab = state.sadd(key, a).sadd(key, b);
    let ba = state.sadd(key, b).sadd(key, a);
    assert(set_at(ab.sets, key) =~= set_at(state.sets, key).insert(a).insert(b));
    assert(set_at(ba.sets, key) =~= set_at(state.sets, key).insert(a).insert(b));
    assert(ab.sets =~= ba.sets);
}

/// A command does to the store what the operation of its name does.
pub proof fn lemma_command_is_operation(state: State, request: Request, score: Score, now: u64)
    ensures
        match request {
            Request::Scalar(ScalarRequest::SetValue { key, value, ttl }) => after(
                state,
                request,
                None,
                now,
            ) == state.set(key, value, ttl, now),
            Request::Scalar(ScalarRequest::Get { key }) => after(state, request, None, now)
                == state.after_get(key, now),
            Request::Scalar(ScalarRequest::Del { key }) => after(state, request, None, now)
                == state.delete(key),
            Request::List(ListRequest::LPush { key, value }) => after(state, request, None, now)
                == state.lpush(key, value),
            Request::List(ListRequest::RPush { key, value }) => after(state, request, None, now)
                == state.rpush(key, value),
            Request::List(ListRequest::LPop { key }) => after(state, request, None, now)
                == state.lpop(key),
            Request::List(ListRequest::RPop { key }) => after(state, request, None, now)
                == state.rpop(key),
            Request::List(ListRequest::LRange { start, end, key }) => after(
                state,
                request,
                None,
                now,
            ) == state,
            Request::Members(SetRequest::SAdd { key, value }) => after(state, request, None, now)
                == state.sadd(key, value),
            Request::Members(SetRequest::SRem { key, value }) => after(state, request, None, now)
                == state.srem(key, value),
            Request::Members(SetRequest::SMembers { key }) => after(state, request, None, now)
                == state,
            Request::Members(SetRequest::SIsMember { key, member }) => after(
                state,
                request,
                None,
                now,
            ) == state,
            Request::Sorted(SortedSetRequest::ZAdd { score: written, member, key }) => after(
                state,
                request,
                Some(score),
                now,
            ) == state.zadd(key, score, member) && after(state, request, None, now) == state,
            Request::Sorted(SortedSetRequest::ZRem { key, member }) => after(
                state,
                request,
                None,
                now,
            ) == state.zrem(key, member),
            Request::Sorted(SortedSetRequest::ZRange { key, start, end }) => after(
                state,
                request,
                None,
                now,
            ) == state,
            Request::Sorted(SortedSetRequest::ZScore { key, member }) => after(
                state,
                request,
                None,
                now,
            ) == state,
        },
{
}

/// A line that is not accepted leaves the store as it is, whatever the
/// error: only a command changes the store, and a score that writes no
/// number makes `ZAdd` change nothing.
pub proof fn lemma_invalid_score_changes_nothing(
    state: State,
    written: Seq<char>,
    member: Seq<char>,
    key: Seq<char>,
    now: u64,
    response: Response,
)
    requires
        answers(
            state,
            Request::Sorted(SortedSetRequest::ZAdd { score: written, member, key }),
            None,
            now,
            response,
        ),
    ensures
        after(
            state,
            Request::Sorted(SortedSetRequest::ZAdd { score: written, member, key }),
            None,
            now,
        ) == state,
        response == Response::Error(crate::command::ParseError::InvalidScore),
{
}

} // verus!
