//! Query-string parsing: a query string is split into `&`-separated
//! pairs, each pair at its first `=` into key and value, and the
//! values are folded per key into a mapping that keeps repeats in
//! encounter order.

use vstd::prelude::*;
use vstd::pervasive::unreached;
use vstd::string::StrSliceExecFns;
use vstd::string::StringExecFns;
use crate::strings::first_index_of_either;
use crate::strings::lemma_first_index_of_either_is;
use crate::strings::str_eq;

verus! {

/// The value a key maps to: the text alone for a key seen once, every
/// occurrence in encounter order for a key seen more than once.
#[derive(Debug, PartialEq)]
pub enum Value {
    Single(String),
    Multiple(Vec<String>),
}

/// The occurrences a `Value` stands for, in order.
pub open spec fn value_view(v: Value) -> Seq<Seq<char>> {
    match v {
        Value::Single(s) => seq![s@],
        Value::Multiple(vs) => vs.deep_view(),
    }
}

/// A `Multiple` is only ever built from at least two occurrences.
pub open spec fn value_wf(v: Value) -> bool {
    match v {
        Value::Single(_) => true,
        Value::Multiple(vs) => vs@.len() >= 2,
    }
}

/// Split off the first `&`-delimited segment: the segment and the
/// remainder past the `&`, the whole string and an empty remainder if
/// it has no `&`, or nothing if the string is empty.
pub open spec fn pair_split(s: Seq<char>) -> Option<(Seq<char>, Seq<char>)> {
    if s.len() == 0 {
        None
    } else {
        let n = first_index_of_either(s, '&', '&') as int;
        if n < s.len() {
            Some((s.subrange(0, n), s.subrange(n + 1, s.len() as int)))
        } else {
            Some((s, Seq::empty()))
        }
    }
}

/// Split a pair at its first `=`: the key before it and the value
/// after it, the whole pair as key and an empty value if it has no
/// `=`. Later `=` characters belong to the value.
pub open spec fn spec_key_value(p: Seq<char>) -> (Seq<char>, Seq<char>) {
    let n = first_index_of_either(p, '=', '=') as int;
    if n < p.len() {
        (p.subrange(0, n), p.subrange(n + 1, p.len() as int))
    } else {
        (p, Seq::empty())
    }
}

/// The key/value entries one segment contributes: none for an empty
/// segment, its split otherwise.
pub open spec fn kv_entries(pair: Seq<char>) -> Seq<(Seq<char>, Seq<char>)> {
    if pair.len() == 0 {
        Seq::empty()
    } else {
        seq![spec_key_value(pair)]
    }
}

/// Every key/value pair of a query string, in encounter order, with
/// empty segments skipped.
pub open spec fn spec_pairs(s: Seq<char>) -> Seq<(Seq<char>, Seq<char>)>
    decreases s.len(),
{
    match pair_split(s) {
        None => Seq::empty(),
        Some((pair, rest)) => kv_entries(pair) + spec_pairs(rest),
    }
}

/// Fold a pair list into the key-to-values mapping: each pair appends
/// its value to its key's list, a fresh key starts a one-value list.
pub open spec fn qs_map(pairs: Seq<(Seq<char>, Seq<char>)>) -> Map<Seq<char>, Seq<Seq<char>>>
    decreases pairs.len(),
{
    if pairs.len() == 0 {
        Map::empty()
    } else {
        let m = qs_map(pairs.drop_last());
        let k = pairs.last().0;
        let v = pairs.last().1;
        m.insert(
            k,
            if m.contains_key(k) {
                m[k].push(v)
            } else {
                seq![v]
            },
        )
    }
}

/// The values belonging to one key, in encounter order.
pub open spec fn values_for(pairs: Seq<(Seq<char>, Seq<char>)>, k: Seq<char>) -> Seq<Seq<char>>
    decreases pairs.len(),
{
    if pairs.len() == 0 {
        Seq::empty()
    } else {
        let init = values_for(pairs.drop_last(), k);
        if pairs.last().0 == k {
            init.push(pairs.last().1)
        } else {
            init
        }
    }
}

/// What the fold holds at one key is exactly that key's own values:
/// the key is present iff it has at least one value, and then maps to
/// all of them in encounter order.
pub proof fn lemma_qs_map_values(pairs: Seq<(Seq<char>, Seq<char>)>, k: Seq<char>)
    ensures
        qs_map(pairs).contains_key(k) <==> values_for(pairs, k).len() > 0,
        qs_map(pairs).contains_key(k) ==> qs_map(pairs)[k] == values_for(pairs, k),
    decreases pairs.len(),
{
    if pairs.len() == 0 {
    } else {
        lemma_qs_map_values(pairs.drop_last(), k);
        let m = qs_map(pairs.drop_last());
        if pairs.last().0 == k && !m.contains_key(k) {
            assert(values_for(pairs.drop_last(), k) =~= Seq::<Seq<char>>::empty());
            assert(Seq::<Seq<char>>::empty().push(pairs.last().1) =~= seq![pairs.last().1]);
        }
    }
}

/// The mapping a list of owned entries stands for, assuming each key
/// occurs at most once in the list.
pub open spec fn entries_view(entries: Seq<(String, Value)>) -> Map<Seq<char>, Seq<Seq<char>>>
    decreases entries.len(),
{
    if entries.len() == 0 {
        Map::empty()
    } else {
        entries_view(entries.drop_last()).insert(
            entries.last().0@,
            value_view(entries.last().1),
        )
    }
}

/// No two entries share a key.
pub open spec fn keys_distinct(entries: Seq<(String, Value)>) -> bool {
    forall|i: int, j: int|
        0 <= i < j < entries.len() ==> entries[i].0@ != entries[j].0@
}

/// The keys of `entries_view` are exactly the keys of the entries.
pub proof fn lemma_entries_view_dom(entries: Seq<(String, Value)>)
    ensures
        forall|k: Seq<char>|
            #[trigger] entries_view(entries).contains_key(k) <==> exists|i: int|
                0 <= i < entries.len() && entries[i].0@ == k,
    decreases entries.len(),
{
    if entries.len() == 0 {
    } else {
        lemma_entries_view_dom(entries.drop_last());
        assert forall|k: Seq<char>| #[trigger]
            entries_view(entries).contains_key(k) implies exists|i: int|
            0 <= i < entries.len() && entries[i].0@ == k by {
            if entries.last().0@ == k {
                assert(entries[entries.len() - 1].0@ == k);
            } else {
                assert(entries_view(entries.drop_last()).contains_key(k));
                let i = choose|i: int|
                    0 <= i < entries.drop_last().len() && entries.drop_last()[i].0@ == k;
                assert(entries[i].0@ == k);
            }
        }
        assert forall|k: Seq<char>|
            (exists|i: int| 0 <= i < entries.len() && entries[i].0@ == k) implies #[trigger]
            entries_view(entries).contains_key(k) by {
            let i = choose|i: int| 0 <= i < entries.len() && entries[i].0@ == k;
            if i < entries.len() - 1 {
                assert(entries.drop_last()[i].0@ == k);
                assert(exists|j: int|
                    0 <= j < entries.drop_last().len() && entries.drop_last()[j].0@ == k);
                assert(entries_view(entries.drop_last()).contains_key(k));
            }
        }
    }
}

/// With distinct keys, the view at an entry's key is that entry's value.
pub proof fn lemma_entries_view_lookup(entries: Seq<(String, Value)>, i: int)
    requires
        keys_distinct(entries),
        0 <= i < entries.len(),
    ensures
        entries_view(entries).contains_key(entries[i].0@),
        entries_view(entries)[entries[i].0@] == value_view(entries[i].1),
    decreases entries.len(),
{
    if i == entries.len() - 1 {
    } else {
        assert(keys_distinct(entries.drop_last())) by {
            assert forall|a: int, b: int|
                0 <= a < b < entries.drop_last().len() implies entries.drop_last()[a].0@
                != entries.drop_last()[b].0@ by {
                assert(entries[a].0@ != entries[b].0@);
            }
        }
        lemma_entries_view_lookup(entries.drop_last(), i);
        assert(entries.drop_last()[i] == entries[i]);
        assert(entries.last().0@ != entries[i].0@);
    }
}

/// With distinct keys, replacing one entry's value replaces exactly
/// that key's binding in the view.
pub proof fn lemma_entries_view_update(entries: Seq<(String, Value)>, i: int, v: Value)
    requires
        keys_distinct(entries),
        0 <= i < entries.len(),
    ensures
        entries_view(entries.update(i, (entries[i].0, v))) =~= entries_view(entries).insert(
            entries[i].0@,
            value_view(v),
        ),
    decreases entries.len(),
{
    let e2 = entries.update(i, (entries[i].0, v));
    if i == entries.len() - 1 {
        assert(e2.drop_last() =~= entries.drop_last());
        assert(e2.last() == (entries[i].0, v));
    } else {
        assert(keys_distinct(entries.drop_last())) by {
            assert forall|a: int, b: int|
                0 <= a < b < entries.drop_last().len() implies entries.drop_last()[a].0@
                != entries.drop_last()[b].0@ by {
                assert(entries[a].0@ != entries[b].0@);
            }
        }
        assert(entries.drop_last()[i] == entries[i]);
        lemma_entries_view_update(entries.drop_last(), i, v);
        assert(e2.drop_last() =~= entries.drop_last().update(i, (entries[i].0, v)));
        assert(e2.last() == entries.last());
        assert(entries.last().0@ != entries[i].0@);
    }
}

/// The key-to-values mapping built from a query string. Keys are
/// unique by construction: repeats are folded into one entry.
#[derive(Debug, PartialEq)]
pub struct QueryString {
    data: Vec<(String, Value)>,
}

impl View for QueryString {
    type V = Map<Seq<char>, Seq<Seq<char>>>;

    closed spec fn view(&self) -> Map<Seq<char>, Seq<Seq<char>>> {
        entries_view(self.data@)
    }
}

impl QueryString {
    /// Every key occurs once and every `Multiple` holds at least two
    /// occurrences.
    pub closed spec fn wf(&self) -> bool {
        &&& keys_distinct(self.data@)
        &&& forall|i: int| 0 <= i < self.data@.len() ==> value_wf(#[trigger] self.data@[i].1)
    }

    /// The index of the entry holding `key`, if one does.
    fn find_key(&self, key: &str) -> (r: Option<usize>)
        ensures
            r matches Some(i) ==> i < self.data@.len() && self.data@[i as int].0@ == key@,
            r is None ==> forall|j: int| 0 <= j < self.data@.len() ==> self.data@[j].0@ != key@,
    {
        let n = self.data.len();
        let mut i: usize = 0;
        while i < n
            invariant
                0 <= i <= n,
                n == self.data@.len(),
                forall|j: int| 0 <= j < i ==> self.data@[j].0@ != key@,
            decreases n - i,
        {
            if str_eq(self.data[i].0.as_str(), key) {
                return Some(i);
            }
            i = i + 1;
        }
        None
    }

    /// Fold one key/value occurrence into the mapping: a fresh key
    /// starts a `Single`, a repeated key grows into a `Multiple` that
    /// keeps encounter order.
    fn insert_pair(&mut self, key: &str, val: &str)
        requires
            old(self).wf(),
        ensures
            final(self).wf(),
            final(self)@ == old(self)@.insert(
                key@,
                if old(self)@.contains_key(key@) {
                    old(self)@[key@].push(val@)
                } else {
                    seq![val@]
                },
            ),
    {
        proof {
            lemma_entries_view_dom(self.data@);
        }
        match self.find_key(key) {
            None => {
                self.data.push((String::from_str(key), Value::Single(String::from_str(val))));
                proof {
                    assert(self.data@.drop_last() =~= old(self).data@);
                    assert(self.data@.last().0@ == key@);
                    assert(value_view(self.data@.last().1) =~= seq![val@]);
                    assert(final(self)@ =~= old(self)@.insert(key@, seq![val@]));
                }
            },
            Some(i) => {
                proof {
                    lemma_entries_view_lookup(self.data@, i as int);
                }
                let pair = self.data.remove(i);
                let new_value = match pair.1 {
                    Value::Single(prior) => {
                        let vals = vec![prior, String::from_str(val)];
                        Value::Multiple(vals)
                    },
                    Value::Multiple(mut vals) => {
                        vals.push(String::from_str(val));
                        Value::Multiple(vals)
                    },
                };
                proof {
                    assert(value_view(new_value) =~= old(self)@[key@].push(val@));
                }
                self.data.insert(i, (pair.0, new_value));
                proof {
                    assert(self.data@ =~= old(self).data@.update(
                        i as int,
                        (old(self).data@[i as int].0, new_value),
                    ));
                    lemma_entries_view_update(old(self).data@, i as int, new_value);
                    assert forall|a: int, b: int|
                        0 <= a < b < self.data@.len() implies self.data@[a].0@
                        != self.data@[b].0@ by {
                        assert(old(self).data@[a].0@ != old(self).data@[b].0@);
                    }
                }
            },
        }
    }

    /// Build the mapping from a query string: `&`-separated pairs are
    /// folded left to right, empty segments contribute nothing, and no
    /// input is ever rejected.
    pub fn from(s: &str) -> (r: QueryString)
        ensures
            r.wf(),
            r@ == qs_map(spec_pairs(s@)),
    {
        let mut qs = QueryString { data: Vec::new() };
        let ghost mut done: Seq<(Seq<char>, Seq<char>)> = Seq::empty();
        let mut remaining: &str = s;
        proof {
            assert(spec_pairs(s@) =~= done + spec_pairs(remaining@));
        }
        while !remaining.is_empty()
            invariant
                qs.wf(),
                qs@ == qs_map(done),
                spec_pairs(s@) == done + spec_pairs(remaining@),
            decreases remaining@.len(),
        {
            let (pair, rest) = match get_next_pair(remaining) {
                Some(pr) => pr,
                None => unreached(),
            };
            if pair.is_empty() {
                proof {
                    assert(kv_entries(pair@) =~= Seq::<(Seq<char>, Seq<char>)>::empty());
                    assert(spec_pairs(remaining@) == kv_entries(pair@) + spec_pairs(rest@));
                    assert(done + spec_pairs(remaining@) =~= done + spec_pairs(rest@));
                }
            } else {
                let (key, val) = match get_key_value_from_pair(pair) {
                    Some(kv) => kv,
                    None => unreached(),
                };
                qs.insert_pair(key, val);
                proof {
                    let done2 = done.push((key@, val@));
                    assert(done2.drop_last() =~= done);
                    assert(done2.last() == (key@, val@));
                    assert(qs@ == qs_map(done2));
                    assert(spec_pairs(remaining@) == kv_entries(pair@) + spec_pairs(rest@));
                    assert(kv_entries(pair@) =~= seq![(key@, val@)]);
                    assert(done + spec_pairs(remaining@) =~= done2 + spec_pairs(rest@));
                    done = done2;
                }
            }
            remaining = rest;
        }
        proof {
            assert(spec_pairs(remaining@) =~= Seq::<(Seq<char>, Seq<char>)>::empty());
            assert(done + spec_pairs(remaining@) =~= done);
        }
        qs
    }

    /// Look a key up: present iff the query string gave it at least
    /// one value.
    pub fn get(&self, key: &str) -> (r: Option<&Value>)
        requires
            self.wf(),
        ensures
            r is Some <==> self@.contains_key(key@),
            r matches Some(v) ==> value_view(*v) == self@[key@] && value_wf(*v),
    {
        proof {
            lemma_entries_view_dom(self.data@);
        }
        match self.find_key(key) {
            Some(i) => {
                proof {
                    lemma_entries_view_lookup(self.data@, i as int);
                }
                Some(&self.data[i].1)
            },
            None => None,
        }
    }
}

/// Split off the first `&`-delimited segment of a query string, with
/// the remainder past the `&`; the whole string and an empty remainder
/// if it has no `&`; nothing if it is empty.
pub fn get_next_pair<'a>(s: &'a str) -> (r: Option<(&'a str, &'a str)>)
    ensures
        r is Some <==> s@.len() > 0,
        r matches Some(pr) ==> pair_split(s@) == Some((pr.0@, pr.1@)),
{
    if s.is_empty() {
        return None;
    }
    let len = s.unicode_len();
    let mut i: usize = 0;
    while i < len
        invariant
            0 <= i <= len,
            len == s@.len(),
            forall|j: int| 0 <= j < i ==> s@[j] != '&',
        decreases len - i,
    {
        let c = s.get_char(i);
        if c == '&' {
            proof {
                lemma_first_index_of_either_is(s@, '&', '&', i as int);
            }
            let pair = s.substring_char(0, i);
            let rest = s.substring_char(i + 1, len);
            return Some((pair, rest));
        }
        i = i + 1;
    }
    proof {
        lemma_first_index_of_either_is(s@, '&', '&', len as int);
        reveal_strlit("");
        assert(""@ =~= Seq::<char>::empty());
    }
    Some((s, ""))
}

/// Split a pair at its first `=` into key and value; the whole pair
/// and an empty value if it has no `=`; nothing if it is empty.
pub fn get_key_value_from_pair<'a>(s: &'a str) -> (r: Option<(&'a str, &'a str)>)
    ensures
        r is Some <==> s@.len() > 0,
        r matches Some(kv) ==> (kv.0@, kv.1@) == spec_key_value(s@),
{
    if s.is_empty() {
        return None;
    }
    let len = s.unicode_len();
    let mut i: usize = 0;
    while i < len
        invariant
            0 <= i <= len,
            len == s@.len(),
            forall|j: int| 0 <= j < i ==> s@[j] != '=',
        decreases len - i,
    {
        let c = s.get_char(i);
        if c == '=' {
            proof {
                lemma_first_index_of_either_is(s@, '=', '=', i as int);
            }
            let key = s.substring_char(0, i);
            let val = s.substring_char(i + 1, len);
            return Some((key, val));
        }
        i = i + 1;
    }
    proof {
        lemma_first_index_of_either_is(s@, '=', '=', len as int);
        reveal_strlit("");
        assert(""@ =~= Seq::<char>::empty());
    }
    Some((s, ""))
}

/// What a query string's mapping holds at one key, if anything.
pub open spec fn qs_lookup(s: Seq<char>, k: Seq<char>) -> Option<Seq<Seq<char>>> {
    if qs_map(spec_pairs(s)).contains_key(k) {
        Some(qs_map(spec_pairs(s))[k])
    } else {
        None
    }
}

/// Key-order independence: what a key maps to depends only on that
/// key's own pairs in their encounter order, not on how the pairs of
/// other keys are interleaved around them.
pub proof fn lemma_key_order_independence(s1: Seq<char>, s2: Seq<char>, k: Seq<char>)
    requires
        values_for(spec_pairs(s1), k) == values_for(spec_pairs(s2), k),
    ensures
        qs_lookup(s1, k) == qs_lookup(s2, k),
{
    lemma_qs_map_values(spec_pairs(s1), k);
    lemma_qs_map_values(spec_pairs(s2), k);
}

/// The empty query string parses to the empty mapping.
pub proof fn lemma_empty_query_string()
    ensures
        qs_map(spec_pairs(Seq::<char>::empty())) == Map::<Seq<char>, Seq<Seq<char>>>::empty(),
{
}

} // verus!
