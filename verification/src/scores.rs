//! The minimum scores of one program: subject keys with their scores, kept
//! in the order in which the subjects were first recorded.

use vstd::prelude::*;

verus! {

/// One subject key with its score, as a mathematical pair.
pub type Pair = (Seq<char>, i8);

/// Whether some pair of `pairs` has the key `key`.
pub open spec fn has_key(pairs: Seq<Pair>, key: Seq<char>) -> bool {
    exists|i: int| 0 <= i < pairs.len() && (#[trigger] pairs[i]).0 == key
}

/// A position at which `key` stands in `pairs`, where it stands at one.
pub open spec fn index_of(pairs: Seq<Pair>, key: Seq<char>) -> int {
    choose|i: int| 0 <= i < pairs.len() && (#[trigger] pairs[i]).0 == key
}

/// Whether no key stands at two positions of `pairs`.
pub open spec fn distinct_keys(pairs: Seq<Pair>) -> bool {
    forall|i: int, j: int|
        0 <= i < j < pairs.len() ==> (#[trigger] pairs[i]).0 != (#[trigger] pairs[j]).0
}

/// `pairs` after recording `value` for `key`: a key that is already there
/// keeps its place and takes the new value, a new key goes to the end.
pub open spec fn recorded(pairs: Seq<Pair>, key: Seq<char>, value: i8) -> Seq<Pair> {
    if has_key(pairs, key) {
        pairs.update(index_of(pairs, key), (key, value))
    } else {
        pairs.push((key, value))
    }
}

/// The value that `pairs` holds for `key`, if any.
pub open spec fn lookup(pairs: Seq<Pair>, key: Seq<char>) -> Option<i8> {
    if has_key(pairs, key) {
        Some(pairs[index_of(pairs, key)].1)
    } else {
        None
    }
}

/// Recording keeps the keys distinct, and afterwards `key` has `value` while
/// every other key has what it had.
pub proof fn lemma_recorded(pairs: Seq<Pair>, key: Seq<char>, value: i8)
    requires
        distinct_keys(pairs),
    ensures
        distinct_keys(recorded(pairs, key, value)),
        lookup(recorded(pairs, key, value), key) == Some(value),
        forall|other: Seq<char>|
            other != key ==> lookup(recorded(pairs, key, value), other) == lookup(pairs, other),
{
    let after = recorded(pairs, key, value);
    if has_key(pairs, key) {
        let at = index_of(pairs, key);
        assert(after[at].0 == key);
        assert forall|other: Seq<char>| other != key implies lookup(after, other) == lookup(
            pairs,
            other,
        ) by {
            lemma_same_keys_same_lookup(pairs, after, other);
        }
    } else {
        assert(after[pairs.len() as int].0 == key);
        assert forall|other: Seq<char>| other != key implies lookup(after, other) == lookup(
            pairs,
            other,
        ) by {
            if has_key(pairs, other) {
                let i = index_of(pairs, other);
                assert(after[i].0 == other);
                let j = index_of(after, other);
                assert(j < pairs.len());
                if i != j {
                    assert(pairs[i].0 == pairs[j].0);
                }
            } else if has_key(after, other) {
                let j = index_of(after, other);
                assert(pairs[j].0 == other);
            }
        }
    }
    let at = index_of(after, key);
    assert(has_key(after, key));
    if has_key(pairs, key) {
        let was = index_of(pairs, key);
        if at != was {
            assert(pairs[at].0 == pairs[was].0);
        }
    } else if at < pairs.len() {
        assert(pairs[at].0 == key);
    }
}

/// Two lists with distinct keys that agree on `key` at every position give
/// the same value for it.
proof fn lemma_same_keys_same_lookup(a: Seq<Pair>, b: Seq<Pair>, key: Seq<char>)
    requires
        distinct_keys(a),
        a.len() == b.len(),
        forall|i: int| 0 <= i < a.len() ==> (#[trigger] a[i]).0 == b[i].0,
        forall|i: int| 0 <= i < a.len() && (#[trigger] a[i]).0 == key ==> a[i].1 == b[i].1,
    ensures
        lookup(a, key) == lookup(b, key),
{
    if has_key(a, key) {
        let i = index_of(a, key);
        assert(b[i].0 == key);
        let j = index_of(b, key);
        assert(a[j].0 == b[j].0);
        if i != j {
            assert(a[i].0 == a[j].0);
        }
    } else if has_key(b, key) {
        let j = index_of(b, key);
        assert(a[j].0 == key);
    }
}

/// One recorded score.
#[derive(Clone, Debug)]
pub struct ScoreEntry {
    pub subject: String,
    pub score: i8,
}

/// The scores of one program, by subject key. No key is held twice; the
/// entries stand in the order in which their keys were first recorded.
#[derive(Clone, Debug)]
pub struct Scores {
    entries: Vec<ScoreEntry>,
}

/// Calls `str::eq`. Trusted: two string slices are equal exactly when they
/// hold the same characters.
#[verifier::external_body]
fn same_text(a: &str, b: &str) -> (r: bool)
    ensures
        r == (a@ == b@),
{
    a == b
}

impl View for Scores {
    type V = Seq<Pair>;

    closed spec fn view(&self) -> Seq<Pair> {
        Seq::new(self.entries@.len(), |i: int| (self.entries@[i].subject@, self.entries@[i].score))
    }
}

impl Scores {
    /// Whether the list is well formed: it holds no key twice.
    pub open spec fn wf(&self) -> bool {
        distinct_keys(self@)
    }

    /// An empty score list.
    pub fn new() -> (r: Scores)
        ensures
            r@ == Seq::<Pair>::empty(),
            r.wf(),
    {
        let r = Scores { entries: Vec::new() };
        assert(r@ =~= Seq::<Pair>::empty());
        r
    }

    /// The number of subjects that have a score.
    pub fn len(&self) -> (n: usize)
        ensures
            n == self@.len(),
    {
        self.entries.len()
    }

    /// The position of `key` among the entries, if it has one.
    fn position(&self, key: &str) -> (r: Option<usize>)
        requires
            self.wf(),
        ensures
            r is Some <==> has_key(self@, key@),
            r matches Some(at) ==> at < self@.len() && at == index_of(self@, key@),
    {
        let mut i: usize = 0;
        while i < self.entries.len()
            invariant
                i <= self.entries@.len(),
                self@.len() == self.entries@.len(),
                distinct_keys(self@),
                forall|j: int| 0 <= j < i ==> (#[trigger] self@[j]).0 != key@,
            decreases self.entries@.len() - i,
        {
            if same_text(self.entries[i].subject.as_str(), key) {
                proof {
                    assert(self@[i as int].0 == key@);
                    let chosen = index_of(self@, key@);
                    if chosen != i {
                        assert(self@[chosen].0 == self@[i as int].0);
                    }
                }
                return Some(i);
            }
            i += 1;
        }
        None
    }

    /// The score recorded for `key`, if there is one.
    pub fn get(&self, key: &str) -> (r: Option<i8>)
        requires
            self.wf(),
        ensures
            r == lookup(self@, key@),
    {
        match self.position(key) {
            Some(at) => Some(self.entries[at].score),
            None => None,
        }
    }

    /// The entry at position `at`, in recording order.
    pub fn entry(&self, at: usize) -> (r: &ScoreEntry)
        requires
            at < self@.len(),
        ensures
            (r.subject@, r.score) == self@[at as int],
    {
        &self.entries[at]
    }

    /// Records `score` for `subject`. A subject that already has a score
    /// keeps its place and takes the new one; a new subject goes last.
    pub fn insert(&mut self, subject: String, score: i8)
        requires
            old(self).wf(),
        ensures
            final(self)@ == recorded(old(self)@, subject@, score),
            final(self).wf(),
    {
        proof {
            lemma_recorded(self@, subject@, score);
        }
        match self.position(subject.as_str()) {
            Some(at) => {
                self.entries.set(at, ScoreEntry { subject, score });
            },
            None => {
                self.entries.push(ScoreEntry { subject, score });
            },
        }
        assert(self@ =~= recorded(old(self)@, subject@, score));
    }
}

} // verus!
