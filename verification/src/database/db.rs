//! The store: five keyed collections, one for each kind of value and one
//! for the expiry instants of the scalar values, and the operations on them.
//!
//! Time is a count of nanoseconds. An operation whose name ends in `_at`
//! is told the time; its namesake without that ending reads the store's
//! clock and does the same.

use crate::clock::Clock;
use crate::database::data_structure::{
    inclusive_range, ranking_of, RList, RSets, RSortedSet, Score,
};
use crate::table::Table;
use crate::text::texts;
use vstd::prelude::*;

verus! {

/// The instant at which a value set at `now` with a time to live of `ttl`
/// seconds expires.
pub open spec fn deadline(now: u64, ttl: u64) -> nat {
    now as nat + ttl as nat * 1_000_000_000
}

/// The text of each value of a table of strings.
pub open spec fn value_texts(table: Map<Seq<char>, String>) -> Map<Seq<char>, Seq<char>> {
    table.map_values(|v: String| v@)
}

/// The instant of each entry of a table of instants.
pub open spec fn instants(table: Map<Seq<char>, u128>) -> Map<Seq<char>, nat> {
    table.map_values(|v: u128| v as nat)
}

/// Whether `key` has an expiry instant that has passed at `now`.
pub open spec fn has_expired(expiry: Map<Seq<char>, nat>, key: Seq<char>, now: u64) -> bool {
    expiry.contains_key(key) && now > expiry[key]
}

/// What a map holds for `key`, if it holds the key.
pub open spec fn lookup<V>(map: Map<Seq<char>, V>, key: Seq<char>) -> Option<V> {
    if map.contains_key(key) {
        Some(map[key])
    } else {
        None
    }
}

/// Gives `key` the scalar value `value`.
pub fn put_value(values: &mut Table<String>, key: String, value: String)
    requires
        old(values).wf(),
    ensures
        final(values).wf(),
        value_texts(final(values)@) == value_texts(old(values)@).insert(key@, value@),
{
    values.insert(key, value);
    assert(value_texts(values@) =~= value_texts(old(values)@).insert(key@, value@));
}

/// Lets the scalar value of `key` expire `ttl` seconds after `now`.
pub fn put_expiry(expiry: &mut Table<u128>, key: String, ttl: u64, now: u64)
    requires
        old(expiry).wf(),
    ensures
        final(expiry).wf(),
        instants(final(expiry)@) == instants(old(expiry)@).insert(key@, deadline(now, ttl)),
{
    let instant: u128 = now as u128 + ttl as u128 * 1_000_000_000u128;
    expiry.insert(key, instant);
    assert(instants(expiry@) =~= instants(old(expiry)@).insert(key@, deadline(now, ttl)));
}

/// Tests whether `key` has an expiry instant that has passed at `now`.
pub fn expired(expiry: &Table<u128>, key: &str, now: u64) -> (passed: bool)
    requires
        expiry.wf(),
    ensures
        passed == has_expired(instants(expiry@), key@, now),
{
    match expiry.get(key) {
        Some(instant) => now as u128 > *instant,
        None => false,
    }
}

/// Takes the scalar value of `key` and its expiry instant out of the
/// store, and tells whether there was a value.
pub fn remove_value(values: &mut Table<String>, expiry: &mut Table<u128>, key: &str) -> (held: bool)
    requires
        old(values).wf(),
        old(expiry).wf(),
    ensures
        final(values).wf(),
        final(expiry).wf(),
        value_texts(final(values)@) == value_texts(old(values)@).remove(key@),
        instants(final(expiry)@) == instants(old(expiry)@).remove(key@),
        held == value_texts(old(values)@).contains_key(key@),
{
    expiry.remove(key);
    let held = values.remove(key).is_some();
    assert(value_texts(values@) =~= value_texts(old(values)@).remove(key@));
    assert(instants(expiry@) =~= instants(old(expiry)@).remove(key@));
    held
}

/// A copy of the scalar value of `key`, if it has one.
pub fn value_of(values: &Table<String>, key: &str) -> (value: Option<String>)
    requires
        values.wf(),
    ensures
        text_of(value) == lookup(value_texts(values@), key@),
{
    match values.get(key) {
        Some(v) => Some(v.clone()),
        None => None,
    }
}

/// The contents of each list of a table of lists.
pub open spec fn list_views(table: Map<Seq<char>, RList>) -> Map<Seq<char>, Seq<Seq<char>>> {
    table.map_values(|l: RList| l@)
}

/// The list of `key`; a key without a list has the empty one.
pub open spec fn list_at(lists: Map<Seq<char>, Seq<Seq<char>>>, key: Seq<char>) -> Seq<Seq<char>> {
    if lists.contains_key(key) {
        lists[key]
    } else {
        Seq::empty()
    }
}

/// The lists after `value` was put at the front of the list of `key`.
pub open spec fn pushed_front(
    lists: Map<Seq<char>, Seq<Seq<char>>>,
    key: Seq<char>,
    value: Seq<char>,
) -> Map<Seq<char>, Seq<Seq<char>>> {
    lists.insert(key, seq![value] + list_at(lists, key))
}

/// The lists after `value` was put at the back of the list of `key`.
pub open spec fn pushed_back(
    lists: Map<Seq<char>, Seq<Seq<char>>>,
    key: Seq<char>,
    value: Seq<char>,
) -> Map<Seq<char>, Seq<Seq<char>>> {
    lists.insert(key, list_at(lists, key).push(value))
}

/// The lists after the front value was taken off the list of `key`: as
/// they were, when the key has no list or an empty one.
pub open spec fn popped_front(lists: Map<Seq<char>, Seq<Seq<char>>>, key: Seq<char>) -> Map<
    Seq<char>,
    Seq<Seq<char>>,
> {
    if list_at(lists, key).len() > 0 {
        lists.insert(key, lists[key].drop_first())
    } else {
        lists
    }
}

/// The lists after the back value was taken off the list of `key`: as
/// they were, when the key has no list or an empty one.
pub open spec fn popped_back(lists: Map<Seq<char>, Seq<Seq<char>>>, key: Seq<char>) -> Map<
    Seq<char>,
    Seq<Seq<char>>,
> {
    if list_at(lists, key).len() > 0 {
        lists.insert(key, lists[key].drop_last())
    } else {
        lists
    }
}

/// What taking the front value off the list of `key` gives.
pub open spec fn front_of(lists: Map<Seq<char>, Seq<Seq<char>>>, key: Seq<char>) -> Option<
    Seq<char>,
> {
    if list_at(lists, key).len() > 0 {
        Some(lists[key].first())
    } else {
        None
    }
}

/// What taking the back value off the list of `key` gives.
pub open spec fn back_of(lists: Map<Seq<char>, Seq<Seq<char>>>, key: Seq<char>) -> Option<
    Seq<char>,
> {
    if list_at(lists, key).len() > 0 {
        Some(lists[key].last())
    } else {
        None
    }
}

/// The values at positions `start` to `end` of the list of `key`, if the
/// key has a list.
pub open spec fn range_of(
    lists: Map<Seq<char>, Seq<Seq<char>>>,
    start: usize,
    end: usize,
    key: Seq<char>,
) -> Option<Seq<Seq<char>>> {
    if lists.contains_key(key) {
        Some(inclusive_range(lists[key], start as int, end as int))
    } else {
        None
    }
}

/// What an optional string says.
pub open spec fn text_of(value: Option<String>) -> Option<Seq<char>> {
    match value {
        Some(v) => Some(v@),
        None => None,
    }
}

/// What optional strings say.
pub open spec fn texts_of(values: Option<Vec<String>>) -> Option<Seq<Seq<char>>> {
    match values {
        Some(v) => Some(texts(v@)),
        None => None,
    }
}

/// Puts `value` at the front of the list of `key`; a key without a list
/// gets one first.
pub fn push_front(lists: &mut Table<RList>, key: String, value: String)
    requires
        old(lists).wf(),
    ensures
        final(lists).wf(),
        list_views(final(lists)@) == pushed_front(list_views(old(lists)@), key@, value@),
{
    let list = lists.get_or_insert(key, RList::new());
    list.lpush(value);
    assert(list_views(lists@) =~= list_views(old(lists)@).insert(
        key@,
        seq![value@] + list_at(list_views(old(lists)@), key@),
    ));
}

/// Puts `value` at the back of the list of `key`; a key without a list
/// gets one first.
pub fn push_back(lists: &mut Table<RList>, key: String, value: String)
    requires
        old(lists).wf(),
    ensures
        final(lists).wf(),
        list_views(final(lists)@) == pushed_back(list_views(old(lists)@), key@, value@),
{
    let list = lists.get_or_insert(key, RList::new());
    list.rpush(value);
    assert(list_views(lists@) =~= list_views(old(lists)@).insert(
        key@,
        list_at(list_views(old(lists)@), key@).push(value@),
    ));
}

/// Takes the front value off the list of `key`. Nothing is taken, and
/// nothing changes, when the key has no list or an empty one.
pub fn pop_front(lists: &mut Table<RList>, key: &str) -> (value: Option<String>)
    requires
        old(lists).wf(),
    ensures
        final(lists).wf(),
        list_views(final(lists)@) == popped_front(list_views(old(lists)@), key@),
        text_of(value) == front_of(list_views(old(lists)@), key@),
{
    let value = match lists.get_mut(key) {
        Some(list) => list.lpop(),
        None => None,
    };
    proof {
        let before = list_views(old(lists)@);
        assert(list_views(lists@) =~= popped_front(before, key@));
    }
    value
}

/// Takes the back value off the list of `key`. Nothing is taken, and
/// nothing changes, when the key has no list or an empty one.
pub fn pop_back(lists: &mut Table<RList>, key: &str) -> (value: Option<String>)
    requires
        old(lists).wf(),
    ensures
        final(lists).wf(),
        list_views(final(lists)@) == popped_back(list_views(old(lists)@), key@),
        text_of(value) == back_of(list_views(old(lists)@), key@),
{
    let value = match lists.get_mut(key) {
        Some(list) => list.rpop(),
        None => None,
    };
    proof {
        let before = list_views(old(lists)@);
        assert(list_views(lists@) =~= popped_back(before, key@));
    }
    value
}

/// Copies of the values at positions `start` to `end` of the list of
/// `key`, both included, if the key has a list. The lists stay as they are.
pub fn range(lists: &mut Table<RList>, start: usize, end: usize, key: &str) -> (values: Option<
    Vec<String>,
>)
    requires
        old(lists).wf(),
    ensures
        final(lists).wf(),
        list_views(final(lists)@) == list_views(old(lists)@),
        texts_of(values) == range_of(list_views(old(lists)@), start, end, key@),
{
    let values = match lists.get_mut(key) {
        Some(list) => Some(list.lrange(start, end)),
        None => None,
    };
    assert(list_views(lists@) =~= list_views(old(lists)@));
    values
}

/// The members of each set of a table of sets.
pub open spec fn set_views(table: Map<Seq<char>, RSets>) -> Map<Seq<char>, Set<Seq<char>>> {
    table.map_values(|s: RSets| s@)
}

/// The invariant of a table of sets: that of the table and of each set.
pub open spec fn sets_wf(sets: &Table<RSets>) -> bool {
    &&& sets.wf()
    &&& forall|k: Seq<char>| #[trigger] sets@.contains_key(k) ==> sets@[k].wf()
}

/// The set of `key`; a key without a set has the empty one.
pub open spec fn set_at(sets: Map<Seq<char>, Set<Seq<char>>>, key: Seq<char>) -> Set<Seq<char>> {
    if sets.contains_key(key) {
        sets[key]
    } else {
        Set::empty()
    }
}

/// The sets after `value` was made a member of the set of `key`.
pub open spec fn with_member(
    sets: Map<Seq<char>, Set<Seq<char>>>,
    key: Seq<char>,
    value: Seq<char>,
) -> Map<Seq<char>, Set<Seq<char>>> {
    sets.insert(key, set_at(sets, key).insert(value))
}

/// The sets after `value` was taken out of the set of `key`: as they
/// were, when the key has no set.
pub open spec fn without_member(
    sets: Map<Seq<char>, Set<Seq<char>>>,
    key: Seq<char>,
    value: Seq<char>,
) -> Map<Seq<char>, Set<Seq<char>>> {
    if sets.contains_key(key) {
        sets.insert(key, sets[key].remove(value))
    } else {
        sets
    }
}

/// Whether `values` lists the members of the set of `key`, each once, if
/// the key has a set, and is nothing if it has none.
pub open spec fn lists_members(
    sets: Map<Seq<char>, Set<Seq<char>>>,
    key: Seq<char>,
    values: Option<Seq<Seq<char>>>,
) -> bool {
    match values {
        Some(v) => sets.contains_key(key) && v.to_set() == sets[key] && v.no_duplicates(),
        None => !sets.contains_key(key),
    }
}

/// Makes `value` a member of the set of `key`, and tells whether it was
/// none before; a key without a set gets one first.
pub fn add_member(sets: &mut Table<RSets>, key: String, value: String) -> (added: bool)
    requires
        sets_wf(old(sets)),
    ensures
        sets_wf(final(sets)),
        set_views(final(sets)@) == with_member(set_views(old(sets)@), key@, value@),
        added == !set_at(set_views(old(sets)@), key@).contains(value@),
{
    let set = sets.get_or_insert(key, RSets::new());
    let added = set.sadd(value);
    assert(set_views(sets@) =~= set_views(old(sets)@).insert(
        key@,
        set_at(set_views(old(sets)@), key@).insert(value@),
    ));
    added
}

/// Takes `value` out of the set of `key`, and tells whether it was a
/// member. Nothing changes when the key has no set.
pub fn remove_member(sets: &mut Table<RSets>, key: &str, value: &str) -> (removed: bool)
    requires
        sets_wf(old(sets)),
    ensures
        sets_wf(final(sets)),
        removed == set_at(set_views(old(sets)@), key@).contains(value@),
        set_views(final(sets)@) == without_member(set_views(old(sets)@), key@, value@),
{
    let removed = match sets.get_mut(key) {
        Some(set) => set.srem(value),
        None => false,
    };
    proof {
        let before = set_views(old(sets)@);
        if before.contains_key(key@) {
            assert(set_views(sets@) =~= before.insert(key@, before[key@].remove(value@)));
        } else {
            assert(set_views(sets@) =~= before);
        }
    }
    removed
}

/// Copies of the members of the set of `key`, each once and in no
/// particular order, if the key has a set. The sets stay as they are.
pub fn members(sets: &mut Table<RSets>, key: &str) -> (values: Option<Vec<String>>)
    requires
        sets_wf(old(sets)),
    ensures
        sets_wf(final(sets)),
        set_views(final(sets)@) == set_views(old(sets)@),
        lists_members(set_views(old(sets)@), key@, texts_of(values)),
{
    let values = match sets.get_mut(key) {
        Some(set) => Some(set.smembers()),
        None => None,
    };
    assert(set_views(sets@) =~= set_views(old(sets)@));
    values
}

/// Tests whether `value` is a member of the set of `key`; of a key without
/// a set nothing is a member. The sets stay as they are.
pub fn is_member(sets: &mut Table<RSets>, key: &str, value: &str) -> (found: bool)
    requires
        sets_wf(old(sets)),
    ensures
        sets_wf(final(sets)),
        set_views(final(sets)@) == set_views(old(sets)@),
        found == set_at(set_views(old(sets)@), key@).contains(value@),
{
    let found = match sets.get_mut(key) {
        Some(set) => set.ismember(value),
        None => false,
    };
    assert(set_views(sets@) =~= set_views(old(sets)@));
    found
}

/// The scores of each sorted set of a table of sorted sets.
pub open spec fn score_views(table: Map<Seq<char>, RSortedSet>) -> Map<
    Seq<char>,
    Map<Seq<char>, Score>,
> {
    table.map_values(|s: RSortedSet| s.scores())
}

/// The invariant of a table of sorted sets: that of the table and of each
/// sorted set.
pub open spec fn sorted_sets_wf(sorted_sets: &Table<RSortedSet>) -> bool {
    &&& sorted_sets.wf()
    &&& forall|k: Seq<char>| #[trigger] sorted_sets@.contains_key(k) ==> sorted_sets@[k].wf()
}

/// The scores of the sorted set of `key`; a key without a sorted set has
/// none.
pub open spec fn scores_at(
    sorted_sets: Map<Seq<char>, Map<Seq<char>, Score>>,
    key: Seq<char>,
) -> Map<Seq<char>, Score> {
    if sorted_sets.contains_key(key) {
        sorted_sets[key]
    } else {
        Map::empty()
    }
}

/// Whether giving `member` the score `score` changes `scores`: it does
/// unless the member has an equal score already.
pub open spec fn changes_score(scores: Map<Seq<char>, Score>, member: Seq<char>, score: Score) -> bool {
    !(scores.contains_key(member) && scores[member].rank() == score.rank())
}

/// The scores after `member` was given the score `score`.
pub open spec fn with_score(scores: Map<Seq<char>, Score>, member: Seq<char>, score: Score) -> Map<
    Seq<char>,
    Score,
> {
    if changes_score(scores, member, score) {
        scores.insert(member, score)
    } else {
        scores
    }
}

/// The sorted sets after `member` was given the score `score` in the
/// sorted set of `key`.
pub open spec fn scored(
    sorted_sets: Map<Seq<char>, Map<Seq<char>, Score>>,
    key: Seq<char>,
    score: Score,
    member: Seq<char>,
) -> Map<Seq<char>, Map<Seq<char>, Score>> {
    sorted_sets.insert(key, with_score(scores_at(sorted_sets, key), member, score))
}

/// The sorted sets after `member` was taken out of the sorted set of
/// `key`: as they were, when the key has no sorted set.
pub open spec fn unscored(
    sorted_sets: Map<Seq<char>, Map<Seq<char>, Score>>,
    key: Seq<char>,
    member: Seq<char>,
) -> Map<Seq<char>, Map<Seq<char>, Score>> {
    if sorted_sets.contains_key(key) {
        sorted_sets.insert(key, sorted_sets[key].remove(member))
    } else {
        sorted_sets
    }
}

/// The members at positions `start` to `end` of the sorted set of `key`
/// in its order, if the key has a sorted set.
pub open spec fn ranked_range_of(
    sorted_sets: Map<Seq<char>, Map<Seq<char>, Score>>,
    key: Seq<char>,
    start: usize,
    end: usize,
) -> Option<Seq<Seq<char>>> {
    if sorted_sets.contains_key(key) {
        Some(inclusive_range(ranking_of(sorted_sets[key]), start as int, end as int))
    } else {
        None
    }
}

/// Gives `member` the score `score` in the sorted set of `key`, and tells
/// whether that changed the set; a key without a sorted set gets one first.
pub fn add_scored(sorted_sets: &mut Table<RSortedSet>, key: String, score: Score, member: String) -> (added: bool)
    requires
        sorted_sets_wf(old(sorted_sets)),
    ensures
        sorted_sets_wf(final(sorted_sets)),
        added == changes_score(scores_at(score_views(old(sorted_sets)@), key@), member@, score),
        score_views(final(sorted_sets)@) == scored(
            score_views(old(sorted_sets)@),
            key@,
            score,
            member@,
        ),
{
    let set = sorted_sets.get_or_insert(key, RSortedSet::new());
    let added = set.zadd(score, member);
    assert(score_views(sorted_sets@) =~= score_views(old(sorted_sets)@).insert(
        key@,
        with_score(scores_at(score_views(old(sorted_sets)@), key@), member@, score),
    ));
    added
}

/// Takes `member` out of the sorted set of `key`, and tells whether it was
/// a member. Nothing changes when the key has no sorted set.
pub fn remove_scored(sorted_sets: &mut Table<RSortedSet>, key: &str, member: String) -> (removed: bool)
    requires
        sorted_sets_wf(old(sorted_sets)),
    ensures
        sorted_sets_wf(final(sorted_sets)),
        removed == scores_at(score_views(old(sorted_sets)@), key@).contains_key(member@),
        score_views(final(sorted_sets)@) == unscored(score_views(old(sorted_sets)@), key@, member@),
{
    let removed = match sorted_sets.get_mut(key) {
        Some(set) => set.zrem(member),
        None => false,
    };
    proof {
        let before = score_views(old(sorted_sets)@);
        if before.contains_key(key@) {
            assert(score_views(sorted_sets@) =~= before.insert(key@, before[key@].remove(member@)));
        } else {
            assert(score_views(sorted_sets@) =~= before);
        }
    }
    removed
}

/// Copies of the members at positions `start` to `end`, both included, of
/// the sorted set of `key` in its order, if the key has a sorted set.
pub fn ranked_range(sorted_sets: &Table<RSortedSet>, key: &str, start: usize, end: usize) -> (values:
    Option<Vec<String>>)
    requires
        sorted_sets_wf(sorted_sets),
    ensures
        texts_of(values) == ranked_range_of(score_views(sorted_sets@), key@, start, end),
{
    match sorted_sets.get(key) {
        Some(set) => Some(set.zrange(start, end)),
        None => None,
    }
}

/// The score of `member` in the sorted set of `key`, if it is a member of
/// one.
pub fn score_of(sorted_sets: &Table<RSortedSet>, key: &str, member: &str) -> (score: Option<Score>)
    requires
        sorted_sets_wf(sorted_sets),
    ensures
        score == lookup(scores_at(score_views(sorted_sets@), key@), member@),
{
    match sorted_sets.get(key) {
        Some(set) => set.zscore(String::from_str(member)),
        None => None,
    }
}

/// What a store holds: for each kind of value, what each key has.
pub struct State {
    /// The scalar value of each key that has one.
    pub values: Map<Seq<char>, Seq<char>>,
    /// The expiry instant of each key that has one.
    pub expiry: Map<Seq<char>, nat>,
    /// The list of each key that has one, front first.
    pub lists: Map<Seq<char>, Seq<Seq<char>>>,
    /// The set of each key that has one.
    pub sets: Map<Seq<char>, Set<Seq<char>>>,
    /// The scores of the sorted set of each key that has one.
    pub sorted_sets: Map<Seq<char>, Map<Seq<char>, Score>>,
}

impl State {
    /// The store after `key` was given the scalar value `value`, with a
    /// time to live of `ttl` seconds from `now` if one was given. Without
    /// one the key keeps the expiry instant that it had.
    pub open spec fn set(self, key: Seq<char>, value: Seq<char>, ttl: Option<u64>, now: u64) -> State {
        State {
            values: self.values.insert(key, value),
            expiry: match ttl {
                Some(seconds) => self.expiry.insert(key, deadline(now, seconds)),
                None => self.expiry,
            },
            ..self
        }
    }

    /// Whether the scalar value of `key` has expired at `now`.
    pub open spec fn is_expired(self, key: Seq<char>, now: u64) -> bool {
        has_expired(self.expiry, key, now)
    }

    /// The store after the scalar value of `key` and its expiry instant
    /// were deleted.
    pub open spec fn delete(self, key: Seq<char>) -> State {
        State { values: self.values.remove(key), expiry: self.expiry.remove(key), ..self }
    }

    /// The store after the scalar value of `key` was read at `now`: an
    /// expired value is deleted by the reading.
    pub open spec fn after_get(self, key: Seq<char>, now: u64) -> State {
        if self.is_expired(key, now) {
            self.delete(key)
        } else {
            self
        }
    }

    /// What reading the scalar value of `key` at `now` gives: the value,
    /// unless the key has none or the value has expired.
    pub open spec fn get(self, key: Seq<char>, now: u64) -> Option<Seq<char>> {
        if self.is_expired(key, now) {
            None
        } else {
            lookup(self.values, key)
        }
    }

    /// The store after `value` was put at the front of the list of `key`.
    pub open spec fn lpush(self, key: Seq<char>, value: Seq<char>) -> State {
        State { lists: pushed_front(self.lists, key, value), ..self }
    }

    /// The store after `value` was put at the back of the list of `key`.
    pub open spec fn rpush(self, key: Seq<char>, value: Seq<char>) -> State {
        State { lists: pushed_back(self.lists, key, value), ..self }
    }

    /// The store after the front value was taken off the list of `key`.
    pub open spec fn lpop(self, key: Seq<char>) -> State {
        State { lists: popped_front(self.lists, key), ..self }
    }

    /// The store after the back value was taken off the list of `key`.
    pub open spec fn rpop(self, key: Seq<char>) -> State {
        State { lists: popped_back(self.lists, key), ..self }
    }

    /// The store after `value` was made a member of the set of `key`.
    pub open spec fn sadd(self, key: Seq<char>, value: Seq<char>) -> State {
        State { sets: with_member(self.sets, key, value), ..self }
    }

    /// The store after `value` was taken out of the set of `key`.
    pub open spec fn srem(self, key: Seq<char>, value: Seq<char>) -> State {
        State { sets: without_member(self.sets, key, value), ..self }
    }

    /// The store after `member` was given the score `score` in the sorted
    /// set of `key`.
    pub open spec fn zadd(self, key: Seq<char>, score: Score, member: Seq<char>) -> State {
        State { sorted_sets: scored(self.sorted_sets, key, score, member), ..self }
    }

    /// The store after `member` was taken out of the sorted set of `key`.
    pub open spec fn zrem(self, key: Seq<char>, member: Seq<char>) -> State {
        State { sorted_sets: unscored(self.sorted_sets, key, member), ..self }
    }
}

/// The store: scalar values with their expiry instants, lists, sets and
/// sorted sets, each kind with keys of its own.
pub struct Database {
    pub clock: Clock,
    pub db: Table<String>,
    pub expiry: Table<u128>,
    pub list: Table<RList>,
    pub set: Table<RSets>,
    pub sorted_set: Table<RSortedSet>,
}

impl View for Database {
    type V = State;

    /// What the store holds.
    open spec fn view(&self) -> State {
        State {
            values: value_texts(self.db@),
            expiry: instants(self.expiry@),
            lists: list_views(self.list@),
            sets: set_views(self.set@),
            sorted_sets: score_views(self.sorted_set@),
        }
    }
}

impl Database {
    /// The store's invariant: that of each of its five collections.
    pub open spec fn wf(&self) -> bool {
        &&& self.db.wf()
        &&& self.expiry.wf()
        &&& self.list.wf()
        &&& sets_wf(&self.set)
        &&& sorted_sets_wf(&self.sorted_set)
    }

    /// An empty store.
    pub fn new() -> (store: Self)
        ensures
            store.wf(),
            store@.values == Map::<Seq<char>, Seq<char>>::empty(),
            store@.expiry == Map::<Seq<char>, nat>::empty(),
            store@.lists == Map::<Seq<char>, Seq<Seq<char>>>::empty(),
            store@.sets == Map::<Seq<char>, Set<Seq<char>>>::empty(),
            store@.sorted_sets == Map::<Seq<char>, Map<Seq<char>, Score>>::empty(),
    {
        let store = Database {
            clock: Clock::new(),
            db: Table::new(),
            expiry: Table::new(),
            list: Table::new(),
            set: Table::new(),
            sorted_set: Table::new(),
        };
        assert(store@.values =~= Map::<Seq<char>, Seq<char>>::empty());
        assert(store@.expiry =~= Map::<Seq<char>, nat>::empty());
        assert(store@.lists =~= Map::<Seq<char>, Seq<Seq<char>>>::empty());
        assert(store@.sets =~= Map::<Seq<char>, Set<Seq<char>>>::empty());
        assert(store@.sorted_sets =~= Map::<Seq<char>, Map<Seq<char>, Score>>::empty());
        store
    }

    /// Gives `key` the scalar value `value`. With a time to live of `ttl`
    /// seconds the value expires that long after `now`; without one the key
    /// keeps the expiry instant that it had, if it had one.
    pub fn set_at(&mut self, key: String, value: String, ttl: Option<u64>, now: u64)
        requires
            old(self).wf(),
        ensures
            final(self).wf(),
            final(self)@ == old(self)@.set(key@, value@, ttl, now),
    {
        put_value(&mut self.db, key.clone(), value);
        if let Some(seconds) = ttl {
            put_expiry(&mut self.expiry, key, seconds, now);
        }
    }

    /// Reads the scalar value of `key` at `now`. A value that has expired
    /// is deleted, with its expiry instant, and not returned.
    pub fn get_at(&mut self, key: &str, now: u64) -> (value: Option<String>)
        requires
            old(self).wf(),
        ensures
            final(self).wf(),
            final(self)@ == old(self)@.after_get(key@, now),
            text_of(value) == old(self)@.get(key@, now),
    {
        if self.is_expired_at(key, now) {
            self.delete(key);
            return None;
        }
        value_of(&self.db, key)
    }

    /// Gives `key` the scalar value `value`, as `set_at` does, at the time
    /// that the store's clock tells.
    pub fn set(&mut self, key: String, value: String, ttl: Option<u64>)
        requires
            old(self).wf(),
        ensures
            final(self).wf(),
            exists|now: u64| final(self)@ == old(self)@.set(key@, value@, ttl, now),
    {
        let now = self.clock.now();
        self.set_at(key, value, ttl, now);
    }

    /// Reads the scalar value of `key`, as `get_at` does, at the time that
    /// the store's clock tells.
    pub fn get(&mut self, key: &str) -> (value: Option<String>)
        requires
            old(self).wf(),
        ensures
            final(self).wf(),
            exists|now: u64|
                final(self)@ == old(self)@.after_get(key@, now) && text_of(value) == old(
                    self,
                )@.get(key@, now),
    {
        let now = self.clock.now();
        self.get_at(key, now)
    }

    /// Tests whether the scalar value of `key` has expired, as
    /// `is_expired_at` does, at the time that the store's clock tells.
    pub fn is_expired(&self, key: &str) -> (passed: bool)
        requires
            self.wf(),
        ensures
            exists|now: u64| passed == self@.is_expired(key@, now),
    {
        let now = self.clock.now();
        self.is_expired_at(key, now)
    }

    /// Tests whether the scalar value of `key` has expired at `now`: whether
    /// the key has an expiry instant that lies before `now`.
    pub fn is_expired_at(&self, key: &str, now: u64) -> (passed: bool)
        requires
            self.wf(),
        ensures
            passed == self@.is_expired(key@, now),
    {
        expired(&self.expiry, key, now)
    }

    /// Deletes the scalar value of `key` and its expiry instant, and tells
    /// whether there was a value.
    pub fn delete(&mut self, key: &str) -> (held: bool)
        requires
            old(self).wf(),
        ensures
            final(self).wf(),
            final(self)@ == old(self)@.delete(key@),
            held == old(self)@.values.contains_key(key@),
    {
        remove_value(&mut self.db, &mut self.expiry, key)
    }

    /// Puts `value` at the front of the list of `key`.
    pub fn lpush(&mut self, key: String, value: String)
        requires
            old(self).wf(),
        ensures
            final(self).wf(),
            final(self)@ == old(self)@.lpush(key@, value@),
    {
        push_front(&mut self.list, key, value);
    }

    /// Puts `value` at the back of the list of `key`.
    pub fn rpush(&mut self, key: String, value: String)
        requires
            old(self).wf(),
        ensures
            final(self).wf(),
            final(self)@ == old(self)@.rpush(key@, value@),
    {
        push_back(&mut self.list, key, value);
    }

    /// Takes the front value off the list of `key`, if the key has a list
    /// that is not empty.
    pub fn lpop(&mut self, key: &str) -> (value: Option<String>)
        requires
            old(self).wf(),
        ensures
            final(self).wf(),
            final(self)@ == old(self)@.lpop(key@),
            text_of(value) == front_of(old(self)@.lists, key@),
    {
        pop_front(&mut self.list, key)
    }

    /// Takes the back value off the list of `key`, if the key has a list
    /// that is not empty.
    pub fn rpop(&mut self, key: &str) -> (value: Option<String>)
        requires
            old(self).wf(),
        ensures
            final(self).wf(),
            final(self)@ == old(self)@.rpop(key@),
            text_of(value) == back_of(old(self)@.lists, key@),
    {
        pop_back(&mut self.list, key)
    }

    /// Copies of the values at positions `start` to `end` of the list of
    /// `key`, both included and counted from the front, if the key has a
    /// list. The range is empty when `end` lies before `start`.
    pub fn lrange(&mut self, start: usize, end: usize, key: &str) -> (values: Option<Vec<String>>)
        requires
            old(self).wf(),
        ensures
            final(self).wf(),
            final(self)@ == old(self)@,
            texts_of(values) == range_of(old(self)@.lists, start, end, key@),
    {
        range(&mut self.list, start, end, key)
    }

    /// Makes `value` a member of the set of `key`, and tells whether it
    /// was none before.
    pub fn sadd(&mut self, key: String, value: String) -> (added: bool)
        requires
            old(self).wf(),
        ensures
            final(self).wf(),
            final(self)@ == old(self)@.sadd(key@, value@),
            added == !set_at(old(self)@.sets, key@).contains(value@),
    {
        add_member(&mut self.set, key, value)
    }

    /// Takes `value` out of the set of `key`, and tells whether it was a
    /// member.
    pub fn srem(&mut self, key: &str, value: &str) -> (removed: bool)
        requires
            old(self).wf(),
        ensures
            final(self).wf(),
            final(self)@ == old(self)@.srem(key@, value@),
            removed == set_at(old(self)@.sets, key@).contains(value@),
    {
        remove_member(&mut self.set, key, value)
    }

    /// Copies of the members of the set of `key`, each once and in no
    /// particular order, if the key has a set.
    pub fn smembers(&mut self, key: &str) -> (values: Option<Vec<String>>)
        requires
            old(self).wf(),
        ensures
            final(self).wf(),
            final(self)@ == old(self)@,
            lists_members(old(self)@.sets, key@, texts_of(values)),
    {
        members(&mut self.set, key)
    }

    /// Tests whether `value` is a member of the set of `key`.
    pub fn sismember(&mut self, key: &str, value: &str) -> (found: bool)
        requires
            old(self).wf(),
        ensures
            final(self).wf(),
            final(self)@ == old(self)@,
            found == set_at(old(self)@.sets, key@).contains(value@),
    {
        is_member(&mut self.set, key, value)
    }

    /// Gives `member` the score `score` in the sorted set of `key`, and
    /// tells whether that changed the set: it does for a new member and for
    /// a new score, not for an equal score.
    pub fn zadd(&mut self, key: String, score: Score, member: String) -> (added: bool)
        requires
            old(self).wf(),
        ensures
            final(self).wf(),
            final(self)@ == old(self)@.zadd(key@, score, member@),
            added == changes_score(scores_at(old(self)@.sorted_sets, key@), member@, score),
    {
        add_scored(&mut self.sorted_set, key, score, member)
    }

    /// Takes `member` out of the sorted set of `key`, and tells whether it
    /// was a member.
    pub fn zrem(&mut self, key: &String, member: String) -> (removed: bool)
        requires
            old(self).wf(),
        ensures
            final(self).wf(),
            final(self)@ == old(self)@.zrem(key@, member@),
            removed == scores_at(old(self)@.sorted_sets, key@).contains_key(member@),
    {
        remove_scored(&mut self.sorted_set, key.as_str(), member)
    }

    /// Copies of the members at positions `start` to `end`, both included,
    /// of the sorted set of `key`, in ascending order of score and of text
    /// among equal scores, if the key has a sorted set. The range is empty
    /// when `end` lies before `start`.
    pub fn zrange(&self, key: &String, start: usize, end: usize) -> (values: Option<Vec<String>>)
        requires
            self.wf(),
        ensures
            texts_of(values) == ranked_range_of(self@.sorted_sets, key@, start, end),
    {
        ranked_range(&self.sorted_set, key.as_str(), start, end)
    }

    /// The score of `member` in the sorted set of `key`, if it is a member
    /// of one.
    pub fn zscore(&self, key: &str, member: &str) -> (score: Option<Score>)
        requires
            self.wf(),
        ensures
            score == lookup(scores_at(self@.sorted_sets, key@), member@),
    {
        score_of(&self.sorted_set, key, member)
    }
}

} // verus!
