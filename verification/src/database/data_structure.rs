//! The collection values of the store: the double-ended list, the set of
//! unique members, and the set ordered by score.

use crate::table::Table;
use crate::text::{precedes, same_text, text_before, texts, lemma_text_before_strict_total};
use std::collections::VecDeque;
use vstd::prelude::*;

verus! {

/// The part of `s` from position `start` to position `end`, both counted
/// from 0 and both included, as far as `s` reaches. It is empty when `end`
/// lies before `start`.
pub open spec fn inclusive_range<A>(s: Seq<A>, start: int, end: int) -> Seq<A> {
    if end < start {
        Seq::empty()
    } else {
        s.subrange(
            if start < s.len() {
                start
            } else {
                s.len() as int
            },
            if end < s.len() {
                end + 1
            } else {
                s.len() as int
            },
        )
    }
}

/// A double-ended list of strings.
pub struct RList {
    pub list: VecDeque<String>,
}

impl View for RList {
    type V = Seq<Seq<char>>;

    /// The texts of the list, front first.
    open spec fn view(&self) -> Seq<Seq<char>> {
        texts(self.list@)
    }
}

impl RList {
    /// An empty list.
    pub fn new() -> (list: Self)
        ensures
            list@ == Seq::<Seq<char>>::empty(),
    {
        let list = RList { list: VecDeque::new() };
        assert(list@ =~= Seq::<Seq<char>>::empty());
        list
    }

    /// Puts `value` at the front.
    pub fn lpush(&mut self, value: String)
        ensures
            final(self)@ == seq![value@] + old(self)@,
    {
        self.list.push_front(value);
        assert(self@ =~= seq![value@] + old(self)@);
    }

    /// Takes the front value off, if there is one.
    pub fn lpop(&mut self) -> (value: Option<String>)
        ensures
            match value {
                Some(v) => old(self)@.len() > 0 && v@ == old(self)@.first() && final(self)@ == old(
                    self,
                )@.drop_first(),
                None => old(self)@.len() == 0 && final(self)@ == old(self)@,
            },
    {
        let value = self.list.pop_front();
        assert(value is Some ==> self@ =~= old(self)@.drop_first());
        value
    }

    /// Puts `value` at the back.
    pub fn rpush(&mut self, value: String)
        ensures
            final(self)@ == old(self)@.push(value@),
    {
        self.list.push_back(value);
        assert(self@ =~= old(self)@.push(value@));
    }

    /// Takes the back value off, if there is one.
    pub fn rpop(&mut self) -> (value: Option<String>)
        ensures
            match value {
                Some(v) => old(self)@.len() > 0 && v@ == old(self)@.last() && final(self)@ == old(
                    self,
                )@.drop_last(),
                None => old(self)@.len() == 0 && final(self)@ == old(self)@,
            },
    {
        let value = self.list.pop_back();
        assert(value is Some ==> self@ =~= old(self)@.drop_last());
        value
    }

    /// Copies of the values at positions `start` to `end`, both included,
    /// counted from the front. The list stays as it is.
    pub fn lrange(&mut self, start: usize, end: usize) -> (values: Vec<String>)
        ensures
            *final(self) == *old(self),
            texts(values@) == inclusive_range(old(self)@, start as int, end as int),
    {
        let mut values: Vec<String> = Vec::new();
        let len = self.list.len();
        if end < start {
            assert(texts(values@) =~= Seq::<Seq<char>>::empty());
            return values;
        }
        let first = if start < len {
            start
        } else {
            len
        };
        let stop = if end < len {
            end + 1
        } else {
            len
        };
        let mut i = first;
        assert(texts(values@) =~= self@.subrange(first as int, i as int));
        while i < stop
            invariant
                first <= i <= stop <= self.list@.len(),
                texts(values@) == self@.subrange(first as int, i as int),
            decreases stop - i,
        {
            let ghost before = texts(values@);
            values.push(self.list[i].clone());
            assert(texts(values@) =~= before.push(self@[i as int]));
            i += 1;
            assert(self@.subrange(first as int, i as int) =~= before.push(self@[i - 1]));
        }
        values
    }
}

/// A set of strings: no member occurs twice.
pub struct RSets {
    set: Vec<String>,
}

impl View for RSets {
    type V = Set<Seq<char>>;

    /// The texts that are members.
    closed spec fn view(&self) -> Set<Seq<char>> {
        texts(self.set@).to_set()
    }
}

impl RSets {
    /// The set's invariant: it holds no member twice.
    pub closed spec fn wf(&self) -> bool {
        texts(self.set@).no_duplicates()
    }

    /// An empty set.
    pub fn new() -> (set: Self)
        ensures
            set.wf(),
            set@ == Set::<Seq<char>>::empty(),
    {
        let set = RSets { set: Vec::new() };
        assert(set@ =~= Set::<Seq<char>>::empty());
        set
    }

    /// Where `value` stands among the members, if it is one.
    fn position(&self, value: &str) -> (at: Option<usize>)
        ensures
            match at {
                Some(i) => i < self.set@.len() && texts(self.set@)[i as int] == value@,
                None => !self@.contains(value@),
            },
    {
        let mut i: usize = 0;
        while i < self.set.len()
            invariant
                i <= self.set@.len(),
                forall|j: int| 0 <= j < i ==> texts(self.set@)[j] != value@,
            decreases self.set.len() - i,
        {
            if same_text(self.set[i].as_str(), value) {
                return Some(i);
            }
            i += 1;
        }
        None
    }

    /// Makes `value` a member, and tells whether it was none before.
    pub fn sadd(&mut self, value: String) -> (added: bool)
        requires
            old(self).wf(),
        ensures
            final(self).wf(),
            final(self)@ == old(self)@.insert(value@),
            added == !old(self)@.contains(value@),
    {
        match self.position(value.as_str()) {
            Some(i) => {
                assert(texts(self.set@).contains(value@));
                assert(self@ =~= old(self)@.insert(value@));
                false
            },
            None => {
                let ghost before = texts(self.set@);
                self.set.push(value);
                assert(texts(self.set@) =~= before.push(value@));
                assert(self@ =~= old(self)@.insert(value@)) by {
                    assert forall|k: Seq<char>| old(self)@.insert(value@).contains(k) implies self@.contains(
                        k,
                    ) by {
                        if k != value@ {
                            let j = before.index_of(k);
                            assert(texts(self.set@)[j] == k);
                        } else {
                            assert(texts(self.set@)[before.len() as int] == k);
                        }
                    }
                }
                true
            },
        }
    }

    /// Takes `value` out of the set, and tells whether it was a member.
    pub fn srem(&mut self, value: &str) -> (removed: bool)
        requires
            old(self).wf(),
        ensures
            final(self).wf(),
            final(self)@ == old(self)@.remove(value@),
            removed == old(self)@.contains(value@),
    {
        match self.position(value) {
            Some(i) => {
                let ghost before = texts(self.set@);
                assert(before.contains(value@));
                self.set.swap_remove(i);
                proof {
                    let after = texts(self.set@);
                    let last = before.len() - 1;
                    assert(after =~= before.update(i as int, before[last]).drop_last());
                    assert forall|a: int, b: int|
                        0 <= a < after.len() && 0 <= b < after.len() && a != b implies after[a]
                        != after[b] by {
                        let x = if a == i {
                            last
                        } else {
                            a
                        };
                        let y = if b == i {
                            last
                        } else {
                            b
                        };
                        assert(after[a] == before[x] && after[b] == before[y]);
                    }
                    assert forall|k: Seq<char>| #[trigger]
                        old(self)@.remove(value@).contains(k) implies self@.contains(k) by {
                        let j = before.index_of(k);
                        assert(before[j] == k);
                        let x = if j == last {
                            i as int
                        } else {
                            j
                        };
                        assert(after[x] == k);
                    }
                    assert forall|k: Seq<char>| #[trigger] self@.contains(k) implies old(
                        self,
                    )@.remove(value@).contains(k) by {
                        let j = after.index_of(k);
                        let x = if j == i {
                            last
                        } else {
                            j
                        };
                        assert(before[x] == k);
                    }
                    assert(self@ =~= old(self)@.remove(value@));
                }
                true
            },
            None => {
                assert(self@ =~= old(self)@.remove(value@));
                false
            },
        }
    }

    /// Copies of all members, each once, in no particular order. The set
    /// stays as it is.
    pub fn smembers(&mut self) -> (members: Vec<String>)
        ensures
            *final(self) == *old(self),
            texts(members@).to_set() == old(self)@,
            old(self).wf() ==> texts(members@).no_duplicates(),
    {
        let mut members: Vec<String> = Vec::new();
        let mut i: usize = 0;
        assert(texts(members@) =~= texts(self.set@).take(0));
        while i < self.set.len()
            invariant
                i <= self.set@.len(),
                texts(members@) == texts(self.set@).take(i as int),
            decreases self.set.len() - i,
        {
            let ghost before = texts(members@);
            members.push(self.set[i].clone());
            assert(texts(members@) =~= before.push(texts(self.set@)[i as int]));
            i += 1;
            assert(texts(self.set@).take(i as int) =~= before.push(texts(self.set@)[i - 1]));
        }
        assert(texts(self.set@).take(i as int) =~= texts(self.set@));
        members
    }

    /// Tests whether `key` is a member. The set stays as it is.
    pub fn ismember(&mut self, key: &str) -> (found: bool)
        ensures
            *final(self) == *old(self),
            found == old(self)@.contains(key@),
    {
        match self.position(key) {
            Some(i) => {
                assert(texts(self.set@).contains(key@));
                true
            },
            None => false,
        }
    }
}

/// A score: a binary64 floating-point number, held by its bit pattern.
/// Two scores are the same when their bit patterns are; they are equal as
/// numbers when their ranks are.
#[derive(Clone, Copy, Debug, PartialEq, Eq)]
pub struct Score {
    pub bits: u64,
}

/// The place of the number with bit pattern `bits` in the order of scores:
/// a smaller number has a smaller rank, the two zeros share rank 0, and
/// every pattern that is not a number shares the greatest rank.
pub open spec fn score_rank(bits: u64) -> int {
    let magnitude = bits & 0x7fff_ffff_ffff_ffffu64;
    if magnitude > 0x7ff0_0000_0000_0000u64 {
        0x7fff_ffff_ffff_ffff
    } else if bits & 0x8000_0000_0000_0000u64 != 0 {
        -(magnitude as int)
    } else {
        magnitude as int
    }
}

impl Score {
    /// The score with the bit pattern `bits`.
    pub fn from_bits(bits: u64) -> (score: Self)
        ensures
            score.bits == bits,
    {
        Score { bits }
    }

    /// The bit pattern of the score.
    pub fn to_bits(&self) -> (bits: u64)
        ensures
            bits == self.bits,
    {
        self.bits
    }

    /// The place of the score in the order of scores.
    pub open spec fn rank(self) -> int {
        score_rank(self.bits)
    }

    /// Computes the place of the score in the order of scores. Two scores
    /// are equal when their keys are, and ordered as their keys are.
    pub fn order_key(&self) -> (key: i64)
        ensures
            key == self.rank(),
    {
        let magnitude: u64 = self.bits & 0x7fff_ffff_ffff_ffffu64;
        if magnitude > 0x7ff0_0000_0000_0000u64 {
            0x7fff_ffff_ffff_ffffi64
        } else if self.bits & 0x8000_0000_0000_0000u64 != 0 {
            -(magnitude as i64)
        } else {
            magnitude as i64
        }
    }
}

/// Whether the member `a` with score `a_score` stands before the member
/// `b` with score `b_score`: by score, and by member text where the scores
/// are equal.
pub open spec fn ranked_before(a_score: Score, a: Seq<char>, b_score: Score, b: Seq<char>) -> bool {
    a_score.rank() < b_score.rank() || (a_score.rank() == b_score.rank() && text_before(a, b))
}

/// The order of scored members is strict and total: nothing stands before
/// itself, the order is transitive, no two stand before each other, and of
/// two with different texts one stands before the other.
pub proof fn lemma_ranked_before_strict_total(
    a_score: Score,
    a: Seq<char>,
    b_score: Score,
    b: Seq<char>,
    c_score: Score,
    c: Seq<char>,
)
    ensures
        !ranked_before(a_score, a, a_score, a),
        ranked_before(a_score, a, b_score, b) && ranked_before(b_score, b, c_score, c)
            ==> ranked_before(a_score, a, c_score, c),
        !(ranked_before(a_score, a, b_score, b) && ranked_before(b_score, b, a_score, a)),
        a == b || ranked_before(a_score, a, b_score, b) || ranked_before(b_score, b, a_score, a),
{
    lemma_text_before_strict_total(a, b, c);
}

/// Whether `ranking` lists the members of `scores` in order: each member
/// once, by ascending score, and by ascending text among equal scores.
pub open spec fn is_ranking(scores: Map<Seq<char>, Score>, ranking: Seq<Seq<char>>) -> bool {
    &&& forall|i: int| 0 <= i < ranking.len() ==> scores.contains_key(#[trigger] ranking[i])
    &&& forall|k: Seq<char>| #[trigger] scores.contains_key(k) ==> ranking.contains(k)
    &&& forall|i: int, j: int|
        0 <= i < j < ranking.len() ==> ranked_before(
            scores[#[trigger] ranking[i]],
            ranking[i],
            scores[#[trigger] ranking[j]],
            ranking[j],
        )
}

/// The members of `scores` in order.
pub open spec fn ranking_of(scores: Map<Seq<char>, Score>) -> Seq<Seq<char>> {
    choose|ranking: Seq<Seq<char>>| is_ranking(scores, ranking)
}

/// A ranking without its first member ranks the scores without that
/// member.
proof fn lemma_ranking_rest(scores: Map<Seq<char>, Score>, ranking: Seq<Seq<char>>)
    requires
        is_ranking(scores, ranking),
        ranking.len() > 0,
    ensures
        is_ranking(scores.remove(ranking[0]), ranking.drop_first()),
{
    let rest = ranking.drop_first();
    let fewer = scores.remove(ranking[0]);
    assert forall|i: int| 0 <= i < rest.len() implies fewer.contains_key(#[trigger] rest[i]) by {
        assert(rest[i] == ranking[i + 1]);
        assert(ranked_before(scores[ranking[0]], ranking[0], scores[ranking[i + 1]], ranking[i + 1]));
        lemma_ranked_before_strict_total(
            scores[ranking[0]],
            ranking[0],
            scores[ranking[0]],
            ranking[0],
            scores[ranking[0]],
            ranking[0],
        );
    }
    assert forall|k: Seq<char>| #[trigger] fewer.contains_key(k) implies rest.contains(k) by {
        assert(scores.contains_key(k));
        let i = choose|i: int| 0 <= i < ranking.len() && ranking[i] == k;
        assert(rest[i - 1] == k);
    }
    assert forall|i: int, j: int| 0 <= i < j < rest.len() implies ranked_before(
        fewer[#[trigger] rest[i]],
        rest[i],
        fewer[#[trigger] rest[j]],
        rest[j],
    ) by {
        assert(rest[i] == ranking[i + 1] && rest[j] == ranking[j + 1]);
    }
}

/// Scores have one ranking only: two rankings of the same scores are the
/// same sequence.
pub proof fn lemma_ranking_unique(
    scores: Map<Seq<char>, Score>,
    a: Seq<Seq<char>>,
    b: Seq<Seq<char>>,
)
    requires
        is_ranking(scores, a),
        is_ranking(scores, b),
    ensures
        a == b,
    decreases a.len(),
{
    if a.len() == 0 {
        if b.len() > 0 {
            assert(scores.contains_key(b[0]));
            assert(a.contains(b[0]));
        }
        assert(a =~= b);
    } else {
        assert(scores.contains_key(a[0]));
        assert(b.contains(a[0]));
        let j = choose|j: int| 0 <= j < b.len() && b[j] == a[0];
        assert(scores.contains_key(b[0]));
        assert(a.contains(b[0]));
        let i = choose|i: int| 0 <= i < a.len() && a[i] == b[0];
        lemma_ranked_before_strict_total(
            scores[a[0]],
            a[0],
            scores[b[0]],
            b[0],
            scores[a[0]],
            a[0],
        );
        if j > 0 {
            assert(ranked_before(scores[b[0]], b[0], scores[b[j]], b[j]));
        }
        if i > 0 {
            assert(ranked_before(scores[a[0]], a[0], scores[a[i]], a[i]));
        }
        assert(a[0] == b[0]);
        lemma_ranking_rest(scores, a);
        lemma_ranking_rest(scores, b);
        lemma_ranking_unique(scores.remove(a[0]), a.drop_first(), b.drop_first());
        assert(a =~= seq![a[0]] + a.drop_first());
        assert(b =~= seq![b[0]] + b.drop_first());
    }
}

/// A member of a sorted set with its score.
#[derive(Clone)]
pub struct SortedMembers {
    pub member: String,
    pub score: Score,
}

impl SortedMembers {
    /// Whether this entry stands before `other` in a sorted set.
    pub open spec fn before(self, other: Self) -> bool {
        ranked_before(self.score, self.member@, other.score, other.member@)
    }

    /// Tests whether this entry stands before `other`: by score, and by
    /// member text where the scores are equal.
    pub fn precedes(&self, other: &Self) -> (before: bool)
        ensures
            before == self.before(*other),
    {
        let mine = self.score.order_key();
        let theirs = other.score.order_key();
        mine < theirs || (mine == theirs && precedes(self.member.as_str(), other.member.as_str()))
    }
}

/// Whether the entries stand in strictly ascending order.
pub open spec fn ascending(entries: Seq<SortedMembers>) -> bool {
    forall|i: int, j: int|
        0 <= i < j < entries.len() ==> (#[trigger] entries[i]).before(#[trigger] entries[j])
}

/// The member texts of the entries, in order.
pub open spec fn members_of(entries: Seq<SortedMembers>) -> Seq<Seq<char>> {
    entries.map_values(|e: SortedMembers| e.member@)
}

/// The first position of `entries` whose entry does not stand before
/// `entry`: where `entry` is, or where it belongs.
fn slot(entries: &Vec<SortedMembers>, entry: &SortedMembers) -> (at: usize)
    requires
        ascending(entries@),
    ensures
        at <= entries@.len(),
        forall|j: int| 0 <= j < at ==> (#[trigger] entries@[j]).before(*entry),
        forall|j: int| at <= j < entries@.len() ==> !(#[trigger] entries@[j]).before(*entry),
{
    let mut low: usize = 0;
    let mut high: usize = entries.len();
    while low < high
        invariant
            low <= high <= entries@.len(),
            ascending(entries@),
            forall|j: int| 0 <= j < low ==> (#[trigger] entries@[j]).before(*entry),
            forall|j: int| high <= j < entries@.len() ==> !(#[trigger] entries@[j]).before(*entry),
        decreases high - low,
    {
        let middle = low + (high - low) / 2;
        if entries[middle].precedes(entry) {
            assert forall|j: int| 0 <= j < middle + 1 implies (#[trigger] entries@[j]).before(
                *entry,
            ) by {
                if j < middle {
                    lemma_ranked_before_strict_total(
                        entries@[j].score,
                        entries@[j].member@,
                        entries@[middle as int].score,
                        entries@[middle as int].member@,
                        entry.score,
                        entry.member@,
                    );
                }
            }
            low = middle + 1;
        } else {
            assert forall|j: int| middle <= j < entries@.len() implies !(
            #[trigger] entries@[j]).before(*entry) by {
                if j > middle {
                    lemma_ranked_before_strict_total(
                        entries@[middle as int].score,
                        entries@[middle as int].member@,
                        entries@[j].score,
                        entries@[j].member@,
                        entry.score,
                        entry.member@,
                    );
                }
            }
            high = middle;
        }
    }
    low
}

/// Taking one entry out of ascending entries leaves them ascending.
proof fn lemma_remove_ascending(entries: Seq<SortedMembers>, at: int)
    requires
        ascending(entries),
        0 <= at < entries.len(),
    ensures
        ascending(entries.remove(at)),
{
    let rest = entries.remove(at);
    assert forall|i: int, j: int| 0 <= i < j < rest.len() implies (#[trigger] rest[i]).before(
        #[trigger] rest[j],
    ) by {
        let x = if i < at {
            i
        } else {
            i + 1
        };
        let y = if j < at {
            j
        } else {
            j + 1
        };
        assert(rest[i] == entries[x] && rest[j] == entries[y]);
    }
}

/// Putting an entry between the entries that stand before it and those
/// that it stands before leaves ascending entries ascending.
proof fn lemma_insert_ascending(entries: Seq<SortedMembers>, at: int, entry: SortedMembers)
    requires
        ascending(entries),
        0 <= at <= entries.len(),
        forall|j: int| 0 <= j < at ==> (#[trigger] entries[j]).before(entry),
        forall|j: int| at <= j < entries.len() ==> entry.before(#[trigger] entries[j]),
    ensures
        ascending(entries.insert(at, entry)),
{
    let more = entries.insert(at, entry);
    assert forall|i: int, j: int| 0 <= i < j < more.len() implies (#[trigger] more[i]).before(
        #[trigger] more[j],
    ) by {
        if i != at {
            let x = if i < at {
                i
            } else {
                i - 1
            };
            assert(more[i] == entries[x]);
        }
        if j != at {
            let y = if j < at {
                j
            } else {
                j - 1
            };
            assert(more[j] == entries[y]);
        }
    }
}

/// A set of members ordered by score: a table from each member to its
/// score, and an index of the members by score and text.
pub struct RSortedSet {
    members: Table<Score>,
    sorted: Vec<SortedMembers>,
}

impl RSortedSet {
    /// The score of each member.
    pub closed spec fn scores(&self) -> Map<Seq<char>, Score> {
        self.members@
    }

    /// The members as the index lists them.
    pub closed spec fn ranking(&self) -> Seq<Seq<char>> {
        members_of(self.sorted@)
    }

    /// Whether the index holds each member with the score that the table
    /// gives it.
    pub closed spec fn consistent(&self) -> bool {
        &&& self.members.wf()
        &&& forall|i: int|
            0 <= i < self.sorted@.len() ==> self.members@.contains_key(
                (#[trigger] self.sorted@[i]).member@,
            ) && self.members@[self.sorted@[i].member@] == self.sorted@[i].score
    }

    /// The sorted set's invariant: table and index hold the same members
    /// with the same scores, and the index lists them in order.
    pub open spec fn wf(&self) -> bool {
        self.consistent() && is_ranking(self.scores(), self.ranking())
    }

    /// The entries of the index stand in ascending order, and no two of
    /// them have the same member.
    proof fn lemma_index(&self)
        requires
            self.wf(),
        ensures
            ascending(self.sorted@),
            forall|i: int, j: int|
                0 <= i < self.sorted@.len() && 0 <= j < self.sorted@.len() && i != j ==> (
                #[trigger] self.sorted@[i]).member@ != (#[trigger] self.sorted@[j]).member@,
    {
        let entries = self.sorted@;
        let ranking = self.ranking();
        assert forall|i: int, j: int| 0 <= i < j < entries.len() implies (
        #[trigger] entries[i]).before(#[trigger] entries[j]) by {
            assert(ranking[i] == entries[i].member@ && ranking[j] == entries[j].member@);
        }
        assert forall|i: int, j: int|
            0 <= i < entries.len() && 0 <= j < entries.len() && i != j implies (
        #[trigger] entries[i]).member@ != (#[trigger] entries[j]).member@ by {
            lemma_ranked_before_strict_total(
                entries[i].score,
                entries[i].member@,
                entries[j].score,
                entries[j].member@,
                entries[i].score,
                entries[i].member@,
            );
            if i < j {
                assert(entries[i].before(entries[j]));
            } else {
                assert(entries[j].before(entries[i]));
            }
        }
    }

    /// The index lists the members as the scores rank them.
    pub proof fn lemma_ranking(&self)
        requires
            self.wf(),
        ensures
            self.ranking() == ranking_of(self.scores()),
    {
        lemma_ranking_unique(self.scores(), self.ranking(), ranking_of(self.scores()));
    }

    /// An empty sorted set.
    pub fn new() -> (set: Self)
        ensures
            set.wf(),
            set.scores() == Map::<Seq<char>, Score>::empty(),
            set.ranking() == Seq::<Seq<char>>::empty(),
    {
        let set = RSortedSet { members: Table::new(), sorted: Vec::new() };
        assert(set.ranking() =~= Seq::<Seq<char>>::empty());
        set
    }

    /// Where the entry of a member stands in the index: at its slot.
    proof fn lemma_slot_of_member(&self, entry: SortedMembers, at: int)
        requires
            self.wf(),
            self.scores().contains_key(entry.member@),
            self.scores()[entry.member@] == entry.score,
            0 <= at <= self.sorted@.len(),
            forall|j: int| 0 <= j < at ==> (#[trigger] self.sorted@[j]).before(entry),
            forall|j: int| at <= j < self.sorted@.len() ==> !(#[trigger] self.sorted@[j]).before(entry),
        ensures
            at < self.sorted@.len(),
            self.sorted@[at].member@ == entry.member@,
            self.sorted@[at].score == entry.score,
    {
        self.lemma_index();
        let entries = self.sorted@;
        let ranking = self.ranking();
        assert(ranking.contains(entry.member@));
        let i = choose|i: int| 0 <= i < ranking.len() && ranking[i] == entry.member@;
        assert(entries[i].member@ == entry.member@ && entries[i].score == entry.score);
        lemma_ranked_before_strict_total(
            entry.score,
            entry.member@,
            entry.score,
            entry.member@,
            entry.score,
            entry.member@,
        );
        if i < at {
            assert(entries[i].before(entry));
        } else if i > at {
            assert(entries[at].before(entries[i]));
            assert(!entries[at].before(entry));
        }
    }

    /// Gives `member` the score `score`, and tells whether the set changed:
    /// it does not when `member` has an equal score already.
    pub fn zadd(&mut self, score: Score, member: String) -> (added: bool)
        requires
            old(self).wf(),
        ensures
            final(self).wf(),
            added == !(old(self).scores().contains_key(member@) && old(self).scores()[member@].rank()
                == score.rank()),
            added ==> final(self).scores() == old(self).scores().insert(member@, score),
            !added ==> final(self).scores() == old(self).scores() && final(self).ranking() == old(
                self,
            ).ranking(),
    {
        proof {
            self.lemma_index();
        }
        let ghost name = member@;
        let ghost table = self.members@;
        let ghost first = self.sorted@;
        let known = match self.members.get(member.as_str()) {
            Some(held) => Some(*held),
            None => None,
        };
        if let Some(held) = known {
            if held.order_key() == score.order_key() {
                return false;
            }
            let stale = SortedMembers { member: member.clone(), score: held };
            let at = slot(&self.sorted, &stale);
            proof {
                self.lemma_slot_of_member(stale, at as int);
            }
            self.sorted.remove(at);
            proof {
                lemma_remove_ascending(first, at as int);
                assert forall|j: int| 0 <= j < self.sorted@.len() implies (
                #[trigger] self.sorted@[j]).member@ != name by {
                    let x = if j < at {
                        j
                    } else {
                        j + 1
                    };
                    assert(self.sorted@[j] == first[x]);
                }
            }
        } else {
            proof {
                assert forall|j: int| 0 <= j < self.sorted@.len() implies (
                #[trigger] self.sorted@[j]).member@ != name by {
                    assert(table.contains_key(self.sorted@[j].member@));
                }
            }
        }
        let ghost second = self.sorted@;
        let entry = SortedMembers { member: member.clone(), score };
        let at = slot(&self.sorted, &entry);
        proof {
            assert forall|j: int| at <= j < second.len() implies entry.before(
                #[trigger] second[j],
            ) by {
                lemma_ranked_before_strict_total(
                    entry.score,
                    entry.member@,
                    second[j].score,
                    second[j].member@,
                    entry.score,
                    entry.member@,
                );
            }
            lemma_insert_ascending(second, at as int, entry);
        }
        self.sorted.insert(at, entry);
        self.members.insert(member, score);
        proof {
            let third = self.sorted@;
            let ranking = self.ranking();
            let scores = self.scores();
            assert(third == second.insert(at as int, entry));
            assert(third[at as int] == entry);
            // Each entry of the index but the new one was in the index before.
            assert forall|j: int| 0 <= j < third.len() && j != at implies exists|x: int|
                0 <= x < first.len() && first[x] == #[trigger] third[j] && first[x].member@
                    != name by {
                let y = if j < at {
                    j
                } else {
                    j - 1
                };
                assert(third[j] == second[y]);
                if known is Some {
                    let gone = choose|g: int|
                        0 <= g < first.len() && second == first.remove(g);
                    let x = if y < gone {
                        y
                    } else {
                        y + 1
                    };
                    assert(second[y] == first[x]);
                } else {
                    assert(second[y] == first[y]);
                }
            }
            assert forall|j: int| 0 <= j < third.len() implies scores.contains_key(
                (#[trigger] third[j]).member@,
            ) && scores[third[j].member@] == third[j].score by {
                if j != at {
                    let x = choose|x: int|
                        0 <= x < first.len() && first[x] == third[j] && first[x].member@ != name;
                    assert(table[first[x].member@] == first[x].score);
                }
            }
            assert forall|j: int| 0 <= j < ranking.len() implies scores.contains_key(
                #[trigger] ranking[j],
            ) by {
                assert(ranking[j] == third[j].member@);
            }
            assert forall|k: Seq<char>| #[trigger] scores.contains_key(k) implies ranking.contains(
                k,
            ) by {
                if k == name {
                    assert(ranking[at as int] == k);
                } else {
                    assert(members_of(first).contains(k));
                    let x = choose|x: int| 0 <= x < first.len() && members_of(first)[x] == k;
                    assert(first[x].member@ == k);
                    let y = if known is Some {
                        let gone = choose|g: int|
                            0 <= g < first.len() && second == first.remove(g) && first[g].member@
                                == name;
                        if x < gone {
                            x
                        } else {
                            x - 1
                        }
                    } else {
                        x
                    };
                    assert(second[y] == first[x]);
                    let z = if y < at {
                        y
                    } else {
                        y + 1
                    };
                    assert(third[z] == second[y]);
                    assert(ranking[z] == k);
                }
            }
            assert forall|i: int, j: int| 0 <= i < j < ranking.len() implies ranked_before(
                scores[#[trigger] ranking[i]],
                ranking[i],
                scores[#[trigger] ranking[j]],
                ranking[j],
            ) by {
                assert(third[i].before(third[j]));
                assert(ranking[i] == third[i].member@ && ranking[j] == third[j].member@);
            }
        }
        true
    }

    /// Takes `member` out of the set, and tells whether it was a member.
    pub fn zrem(&mut self, member: String) -> (removed: bool)
        requires
            old(self).wf(),
        ensures
            final(self).wf(),
            removed == old(self).scores().contains_key(member@),
            final(self).scores() == old(self).scores().remove(member@),
    {
        proof {
            self.lemma_index();
        }
        let ghost name = member@;
        let ghost table = self.members@;
        let ghost first = self.sorted@;
        let known = match self.members.get(member.as_str()) {
            Some(held) => Some(*held),
            None => None,
        };
        if let Some(score) = known {
            let entry = SortedMembers { member, score };
            let at = slot(&self.sorted, &entry);
            proof {
                self.lemma_slot_of_member(entry, at as int);
            }
            self.members.remove(entry.member.as_str());
            self.sorted.remove(at);
            proof {
                let second = self.sorted@;
                let ranking = self.ranking();
                let scores = self.scores();
                lemma_remove_ascending(first, at as int);
                assert forall|j: int| 0 <= j < second.len() implies scores.contains_key(
                    (#[trigger] second[j]).member@,
                ) && scores[second[j].member@] == second[j].score by {
                    let x = if j < at {
                        j
                    } else {
                        j + 1
                    };
                    assert(second[j] == first[x]);
                    assert(table[first[x].member@] == first[x].score);
                }
                assert forall|j: int| 0 <= j < ranking.len() implies scores.contains_key(
                    #[trigger] ranking[j],
                ) by {
                    assert(ranking[j] == second[j].member@);
                }
                assert forall|k: Seq<char>| #[trigger]
                    scores.contains_key(k) implies ranking.contains(k) by {
                    assert(members_of(first).contains(k));
                    let x = choose|x: int| 0 <= x < first.len() && members_of(first)[x] == k;
                    assert(first[x].member@ == k);
                    let y = if x < at {
                        x
                    } else {
                        x - 1
                    };
                    assert(second[y] == first[x]);
                    assert(ranking[y] == k);
                }
                assert forall|i: int, j: int| 0 <= i < j < ranking.len() implies ranked_before(
                    scores[#[trigger] ranking[i]],
                    ranking[i],
                    scores[#[trigger] ranking[j]],
                    ranking[j],
                ) by {
                    assert(second[i].before(second[j]));
                    assert(ranking[i] == second[i].member@ && ranking[j] == second[j].member@);
                }
            }
            true
        } else {
            assert(self.scores() =~= old(self).scores().remove(name));
            false
        }
    }

    /// The score of `member`, if it is a member.
    pub fn zscore(&self, member: String) -> (score: Option<Score>)
        requires
            self.wf(),
        ensures
            match score {
                Some(s) => self.scores().contains_key(member@) && s == self.scores()[member@],
                None => !self.scores().contains_key(member@),
            },
    {
        match self.members.get(member.as_str()) {
            Some(score) => Some(*score),
            None => None,
        }
    }

    /// Copies of the members at positions `start` to `end` of the ranking,
    /// both included.
    pub fn zrange(&self, start: usize, end: usize) -> (members: Vec<String>)
        requires
            self.wf(),
        ensures
            texts(members@) == inclusive_range(self.ranking(), start as int, end as int),
            self.ranking() == ranking_of(self.scores()),
    {
        proof {
            self.lemma_ranking();
        }
        let mut members: Vec<String> = Vec::new();
        let len = self.sorted.len();
        if end < start {
            assert(texts(members@) =~= Seq::<Seq<char>>::empty());
            return members;
        }
        let first = if start < len {
            start
        } else {
            len
        };
        let stop = if end < len {
            end + 1
        } else {
            len
        };
        let mut i = first;
        assert(texts(members@) =~= self.ranking().subrange(first as int, i as int));
        while i < stop
            invariant
                first <= i <= stop <= self.sorted@.len(),
                texts(members@) == self.ranking().subrange(first as int, i as int),
            decreases stop - i,
        {
            let ghost before = texts(members@);
            members.push(self.sorted[i].member.clone());
            assert(texts(members@) =~= before.push(self.ranking()[i as int]));
            i += 1;
            assert(self.ranking().subrange(first as int, i as int) =~= before.push(
                self.ranking()[i - 1],
            ));
        }
        members
    }
}

} // verus!
