//! The bindings of a range: extra keys and values that a lockfile attaches
//! to it.
//!
//! Bindings are written as a query string. Read in order, a key that comes
//! again replaces the value it had and keeps its place.

use vstd::prelude::*;
use vstd::std_specs::cmp::PartialEqSpecImpl;

verus! {

/// The keys and values of a list of pairs, as characters.
pub open spec fn pairs_view(pairs: Seq<(String, String)>) -> Seq<(Seq<char>, Seq<char>)> {
    pairs.map_values(|pair: (String, String)| (pair.0@, pair.1@))
}

/// Whether some pair of `list` has the key `key`.
pub open spec fn has_key(list: Seq<(Seq<char>, Seq<char>)>, key: Seq<char>) -> bool {
    exists|i: int| 0 <= i < list.len() && (#[trigger] list[i]).0 == key
}

/// The index of the last pair of `list` with the key `key`.
pub open spec fn last_index_of_key(list: Seq<(Seq<char>, Seq<char>)>, key: Seq<char>) -> int
    recommends
        has_key(list, key),
    decreases list.len(),
{
    if list.len() == 0 {
        -1
    } else if list.last().0 == key {
        list.len() - 1
    } else {
        last_index_of_key(list.drop_last(), key)
    }
}

/// The value that `list` binds `key` to: that of the last pair with this
/// key.
pub open spec fn value_of(list: Seq<(Seq<char>, Seq<char>)>, key: Seq<char>) -> Option<
    Seq<char>,
> {
    if has_key(list, key) {
        Some(list[last_index_of_key(list, key)].1)
    } else {
        None
    }
}

/// Whether no two pairs of `list` have the same key.
pub open spec fn keys_distinct(list: Seq<(Seq<char>, Seq<char>)>) -> bool {
    forall|i: int, j: int|
        0 <= i < j < list.len() ==> (#[trigger] list[i]).0 != (#[trigger] list[j]).0
}

/// `list` with `pair` put in: in place of the pair that has its key, or at
/// the end where no pair has it.
pub open spec fn upsert(list: Seq<(Seq<char>, Seq<char>)>, pair: (Seq<char>, Seq<char>)) -> Seq<
    (Seq<char>, Seq<char>),
> {
    if has_key(list, pair.0) {
        list.update(last_index_of_key(list, pair.0), pair)
    } else {
        list.push(pair)
    }
}

/// The pairs of `pairs` put in one after the other, from the first to the
/// last.
pub open spec fn collapse(pairs: Seq<(Seq<char>, Seq<char>)>) -> Seq<(Seq<char>, Seq<char>)>
    decreases pairs.len(),
{
    if pairs.len() == 0 {
        Seq::empty()
    } else {
        upsert(collapse(pairs.drop_last()), pairs.last())
    }
}

/// The index that `last_index_of_key` gives holds the key, and no later one
/// does.
pub proof fn lemma_last_index_of_key(list: Seq<(Seq<char>, Seq<char>)>, key: Seq<char>)
    requires
        has_key(list, key),
    ensures
        0 <= last_index_of_key(list, key) < list.len(),
        list[last_index_of_key(list, key)].0 == key,
        forall|j: int|
            last_index_of_key(list, key) < j < list.len() ==> (#[trigger] list[j]).0 != key,
    decreases list.len(),
{
    if list.last().0 != key {
        let i = choose|i: int| 0 <= i < list.len() && (#[trigger] list[i]).0 == key;
        assert(list.drop_last()[i].0 == key);
        lemma_last_index_of_key(list.drop_last(), key);
        assert forall|j: int| last_index_of_key(list, key) < j < list.len() implies (
        #[trigger] list[j]).0 != key by {
            if j < list.len() - 1 {
                assert(list.drop_last()[j].0 != key);
            }
        }
    }
}

/// Putting a pair in keeps the keys distinct, binds its key to its value,
/// and leaves every other key as it was.
pub proof fn lemma_upsert(list: Seq<(Seq<char>, Seq<char>)>, pair: (Seq<char>, Seq<char>))
    requires
        keys_distinct(list),
    ensures
        keys_distinct(upsert(list, pair)),
        value_of(upsert(list, pair), pair.0) == Some(pair.1),
        forall|key: Seq<char>|
            key != pair.0 ==> #[trigger] value_of(upsert(list, pair), key) == value_of(list, key),
{
    let after = upsert(list, pair);
    if has_key(list, pair.0) {
        lemma_last_index_of_key(list, pair.0);
    }
    let at = if has_key(list, pair.0) {
        last_index_of_key(list, pair.0)
    } else {
        list.len() as int
    };
    assert(after.len() > at && after[at] == pair);
    assert forall|i: int| 0 <= i < after.len() && i != at implies #[trigger] after[i]
        == list[i] && list[i].0 != pair.0 by {
        if has_key(list, pair.0) {
            if i < at {
                assert(list[i].0 != list[at].0);
            } else {
                assert(list[at].0 != list[i].0);
            }
        } else {
            assert(list[i].0 != pair.0);
        }
    }
    assert(keys_distinct(after)) by {
        assert forall|i: int, j: int| 0 <= i < j < after.len() implies (#[trigger] after[i]).0 != (
        #[trigger] after[j]).0 by {
            if i != at && j != at {
                assert(list[i].0 != list[j].0);
            }
        }
    }
    assert(has_key(after, pair.0));
    lemma_value_of_distinct(after, at);
    assert forall|key: Seq<char>| key != pair.0 implies #[trigger] value_of(after, key)
        == value_of(list, key) by {
        if has_key(list, key) {
            lemma_last_index_of_key(list, key);
            let k = last_index_of_key(list, key);
            assert(after[k] == list[k]);
            lemma_value_of_distinct(after, k);
        } else if has_key(after, key) {
            let k = choose|k: int| 0 <= k < after.len() && (#[trigger] after[k]).0 == key;
            assert(list[k].0 == key);
        }
    }
}

/// Where the keys are distinct, a key is bound to the value that stands
/// beside it.
pub proof fn lemma_value_of_distinct(list: Seq<(Seq<char>, Seq<char>)>, i: int)
    requires
        keys_distinct(list),
        0 <= i < list.len(),
    ensures
        has_key(list, list[i].0),
        last_index_of_key(list, list[i].0) == i,
        value_of(list, list[i].0) == Some(list[i].1),
{
    assert(has_key(list, list[i].0));
    lemma_last_index_of_key(list, list[i].0);
    let k = last_index_of_key(list, list[i].0);
    if k < i {
        assert(list[k].0 != list[i].0);
    } else if i < k {
        assert(list[i].0 != list[k].0);
    }
}

/// The keys of `collapse(pairs)` are distinct, they are the keys of `pairs`,
/// and each is bound to the value that stands beside its last occurrence in
/// `pairs`.
pub proof fn lemma_collapse(pairs: Seq<(Seq<char>, Seq<char>)>)
    ensures
        keys_distinct(collapse(pairs)),
        forall|key: Seq<char>| #[trigger] value_of(collapse(pairs), key) == value_of(pairs, key),
    decreases pairs.len(),
{
    if pairs.len() > 0 {
        let before = pairs.drop_last();
        let last = pairs.last();
        lemma_collapse(before);
        lemma_upsert(collapse(before), last);
        assert forall|key: Seq<char>| #[trigger]
            value_of(collapse(pairs), key) == value_of(pairs, key) by {
            if key == last.0 {
                assert(pairs[pairs.len() - 1].0 == key);
            } else {
                assert(value_of(collapse(before), key) == value_of(before, key));
                if has_key(before, key) {
                    let i = choose|i: int| 0 <= i < before.len() && (#[trigger] before[i]).0 == key;
                    assert(pairs[i].0 == key);
                    lemma_last_index_of_key(before, key);
                } else if has_key(pairs, key) {
                    let i = choose|i: int| 0 <= i < pairs.len() && (#[trigger] pairs[i]).0 == key;
                    assert(before[i].0 == key);
                }
            }
        }
    } else {
        assert forall|key: Seq<char>| #[trigger]
            value_of(collapse(pairs), key) == value_of(pairs, key) by {
            assert(!has_key(pairs, key));
            assert(!has_key(collapse(pairs), key));
        }
    }
}

/// The pairs of names and values that `url::form_urlencoded::parse` reads
/// out of the bytes of the query string `text`, in their order.
pub uninterp spec fn query_pairs_of(text: Seq<char>) -> Seq<(Seq<char>, Seq<char>)>;

/// Calls `url::form_urlencoded::parse` on the bytes of `text` and collects
/// the pairs that it yields, each made owned by `Parse::into_owned`. The
/// contract claims only that the pairs are a function of the text: those
/// that `query_pairs_of` names.
#[verifier::external_body]
fn query_pairs(text: &str) -> (pairs: Vec<(String, String)>)
    ensures
        pairs_view(pairs@) == query_pairs_of(text@),
{
    url::form_urlencoded::parse(text.as_bytes()).into_owned().collect()
}

/// The bindings that the query string `text` holds: its pairs, collapsed.
/// The whole of `text` is read, whatever characters it holds.
pub open spec fn decoded_bindings(text: Seq<char>) -> Seq<(Seq<char>, Seq<char>)> {
    collapse(query_pairs_of(text))
}

/// The bindings of a range: a mapping from keys to values. No key stands in
/// them twice, and two bindings are equal when they bind the same keys to
/// the same values, in whatever order.
#[derive(Debug, Eq)]
pub struct Bindings {
    entries: Vec<(String, String)>,
}

impl View for Bindings {
    type V = Seq<(Seq<char>, Seq<char>)>;

    closed spec fn view(&self) -> Seq<(Seq<char>, Seq<char>)> {
        pairs_view(self.entries@)
    }
}

/// The index of the pair of `entries` that has the key `key`.
fn position_of_key(entries: &Vec<(String, String)>, key: &String) -> (found: Option<usize>)
    ensures
        match found {
            Some(j) => j < entries.len() && entries[j as int].0@ == key@,
            None => !has_key(pairs_view(entries@), key@),
        },
{
    let mut j: usize = 0;
    while j < entries.len()
        invariant
            j <= entries.len(),
            forall|k: int| 0 <= k < j ==> (#[trigger] pairs_view(entries@)[k]).0 != key@,
        decreases entries.len() - j,
    {
        if entries[j].0 == *key {
            return Some(j);
        }
        j += 1;
    }
    None
}

impl Bindings {
    #[verifier::type_invariant]
    closed spec fn well_formed(self) -> bool {
        keys_distinct(self@)
    }

    /// The bindings that a list of pairs gives, read from the first pair to
    /// the last.
    pub fn from_pairs(pairs: Vec<(String, String)>) -> (bindings: Self)
        ensures
            bindings@ == collapse(pairs_view(pairs@)),
            keys_distinct(bindings@),
    {
        let ghost all = pairs_view(pairs@);
        let mut entries: Vec<(String, String)> = Vec::new();
        let mut i: usize = 0;
        while i < pairs.len()
            invariant
                i <= pairs.len(),
                all == pairs_view(pairs@),
                pairs_view(entries@) == collapse(all.take(i as int)),
                keys_distinct(pairs_view(entries@)),
            decreases pairs.len() - i,
        {
            let key = pairs[i].0.clone();
            let value = pairs[i].1.clone();
            let ghost before = pairs_view(entries@);
            let ghost pair = (key@, value@);
            proof {
                assert(all.take(i + 1).drop_last() =~= all.take(i as int));
                assert(all.take(i + 1).last() == pair);
                lemma_upsert(before, pair);
            }
            match position_of_key(&entries, &key) {
                Some(j) => {
                    proof {
                        assert(before[j as int].0 == key@);
                        lemma_value_of_distinct(before, j as int);
                    }
                    entries.set(j, (key, value));
                    proof {
                        assert(pairs_view(entries@) =~= before.update(j as int, pair));
                    }
                },
                None => {
                    entries.push((key, value));
                    proof {
                        assert(pairs_view(entries@) =~= before.push(pair));
                    }
                },
            }
            i += 1;
        }
        proof {
            assert(all.take(pairs.len() as int) =~= all);
        }
        Bindings { entries }
    }

    /// Decodes a query string: `&` parts the pairs, `=` the key from the
    /// value, and both are percent-decoded once.
    pub fn decode(text: &str) -> (bindings: Self)
        ensures
            bindings@ == decoded_bindings(text@),
            keys_distinct(bindings@),
    {
        Bindings::from_pairs(query_pairs(text))
    }

    /// The number of keys.
    pub fn len(&self) -> (count: usize)
        ensures
            count == self@.len(),
    {
        self.entries.len()
    }

    /// Whether `key` is bound.
    pub fn contains_key(&self, key: &str) -> (found: bool)
        ensures
            found == has_key(self@, key@),
    {
        let wanted = String::from_str(key);
        match position_of_key(&self.entries, &wanted) {
            Some(j) => {
                proof {
                    assert(self@[j as int].0 == key@);
                }
                true
            },
            None => false,
        }
    }

    /// The value that `key` is bound to.
    pub fn get(&self, key: &str) -> (value: Option<&String>)
        ensures
            match value {
                Some(v) => value_of(self@, key@) == Some(v@),
                None => value_of(self@, key@) is None,
            },
    {
        let wanted = String::from_str(key);
        match position_of_key(&self.entries, &wanted) {
            Some(j) => {
                proof {
                    use_type_invariant(self);
                    assert(self@[j as int].0 == key@);
                    lemma_value_of_distinct(self@, j as int);
                }
                Some(&self.entries[j].1)
            },
            None => None,
        }
    }

    /// The keys with their values, in the order in which the keys first
    /// came.
    pub fn to_pairs(&self) -> (pairs: Vec<(String, String)>)
        ensures
            pairs_view(pairs@) == self@,
    {
        let mut pairs: Vec<(String, String)> = Vec::new();
        let mut i: usize = 0;
        while i < self.entries.len()
            invariant
                i <= self.entries.len(),
                pairs_view(pairs@) == pairs_view(self.entries@).take(i as int),
            decreases self.entries.len() - i,
        {
            let ghost before = pairs_view(pairs@);
            let pair = (self.entries[i].0.clone(), self.entries[i].1.clone());
            pairs.push(pair);
            proof {
                assert(pairs_view(pairs@) =~= before.push((pair.0@, pair.1@)));
                assert(pairs_view(pairs@) =~= pairs_view(self.entries@).take(i + 1));
            }
            i += 1;
        }
        proof {
            assert(pairs_view(self.entries@).take(self.entries.len() as int) =~= self@);
        }
        pairs
    }
}

impl PartialEq for Bindings {
    fn eq(&self, other: &Self) -> (same: bool) {
        proof {
            use_type_invariant(self);
            use_type_invariant(other);
        }
        let mut i: usize = 0;
        while i < self.entries.len()
            invariant
                i <= self.entries.len(),
                keys_distinct(self@),
                forall|k: int|
                    0 <= k < i ==> value_of(other@, (#[trigger] self@[k]).0) == Some(self@[k].1),
            decreases self.entries.len() - i,
        {
            proof {
                lemma_value_of_distinct(self@, i as int);
            }
            let matched = match other.get(self.entries[i].0.as_str()) {
                Some(value) => *value == self.entries[i].1,
                None => false,
            };
            if !matched {
                return false;
            }
            i += 1;
        }
        let mut j: usize = 0;
        while j < other.entries.len()
            invariant
                j <= other.entries.len(),
                keys_distinct(other@),
                forall|k: int| 0 <= k < j ==> has_key(self@, (#[trigger] other@[k]).0),
            decreases other.entries.len() - j,
        {
            proof {
                lemma_value_of_distinct(other@, j as int);
            }
            if !self.contains_key(other.entries[j].0.as_str()) {
                return false;
            }
            j += 1;
        }
        proof {
            assert forall|key: Seq<char>| value_of(self@, key) == value_of(other@, key) by {
                if has_key(self@, key) {
                    let k = choose|k: int| 0 <= k < self@.len() && (#[trigger] self@[k]).0 == key;
                    lemma_value_of_distinct(self@, k);
                } else if has_key(other@, key) {
                    let k = choose|k: int| 0 <= k < other@.len() && (#[trigger] other@[k]).0 == key;
                    assert(has_key(self@, other@[k].0));
                }
            }
        }
        true
    }
}

impl PartialEqSpecImpl for Bindings {
    open spec fn obeys_eq_spec() -> bool {
        true
    }

    open spec fn eq_spec(&self, other: &Self) -> bool {
        forall|key: Seq<char>| value_of(self@, key) == value_of(other@, key)
    }
}

} // verus!
