//! A report that groups error messages under their field keys: feeding it
//! `(key, message)` pairs yields one entry per distinct key, in order of
//! first occurrence, each carrying that key's messages in arrival order.

use vstd::prelude::*;

verus! {

/// The keys of a pair sequence, as character sequences.
pub open spec fn pair_key() -> spec_fn((String, String)) -> Seq<char> {
    |p: (String, String)| p.0@
}

/// Selects the pairs carrying one key.
pub open spec fn has_key(k: Seq<char>) -> spec_fn((String, String)) -> bool {
    |p: (String, String)| p.0@ == k
}

/// The message of a pair, as a character sequence.
pub open spec fn pair_message() -> spec_fn((String, String)) -> Seq<char> {
    |p: (String, String)| p.1@
}

/// The distinct keys of a pair sequence, in order of first occurrence.
pub open spec fn key_seq(pairs: Seq<(String, String)>) -> Seq<Seq<char>>
    decreases pairs.len(),
{
    if pairs.len() == 0 {
        Seq::empty()
    } else {
        let prefix = key_seq(pairs.drop_last());
        if prefix.contains(pair_key()(pairs.last())) {
            prefix
        } else {
            prefix.push(pair_key()(pairs.last()))
        }
    }
}

/// The messages that key `k` collects from `pairs`, in arrival order.
pub open spec fn messages_for(pairs: Seq<(String, String)>, k: Seq<char>) -> Seq<Seq<char>> {
    pairs.filter(has_key(k)).map_values(pair_message())
}

/// The keys of the entries a report holds.
pub open spec fn entry_keys(entries: Seq<(String, Vec<String>)>) -> Seq<Seq<char>> {
    entries.map_values(|e: (String, Vec<String>)| e.0@)
}

/// The messages of one entry, as character sequences.
pub open spec fn entry_messages(e: (String, Vec<String>)) -> Seq<Seq<char>> {
    e.1@.map_values(|s: String| s@)
}

/// Appending one pair extends its own key's messages by that pair's message
/// and leaves every other key's messages unchanged.
proof fn lemma_messages_push(pairs: Seq<(String, String)>, p: (String, String), k: Seq<char>)
    ensures
        messages_for(pairs.push(p), k) == if p.0@ == k {
            messages_for(pairs, k).push(p.1@)
        } else {
            messages_for(pairs, k)
        },
{
    pairs.lemma_filter_push(p, has_key(k));
    if p.0@ == k {
        assert(pairs.filter(has_key(k)).push(p).map_values(pair_message()) =~= pairs.filter(
            has_key(k),
        ).map_values(pair_message()).push(p.1@));
    }
}

/// The distinct keys hold no duplicates.
proof fn lemma_key_seq_distinct(pairs: Seq<(String, String)>)
    ensures
        forall|i: int, j: int|
            0 <= i < j < key_seq(pairs).len() ==> key_seq(pairs)[i] != key_seq(pairs)[j],
    decreases pairs.len(),
{
    if pairs.len() > 0 {
        lemma_key_seq_distinct(pairs.drop_last());
        let prefix = key_seq(pairs.drop_last());
        let ks = key_seq(pairs);
        if !prefix.contains(pair_key()(pairs.last())) {
            assert forall|i: int, j: int| 0 <= i < j < ks.len() implies ks[i] != ks[j] by {
                if j == ks.len() - 1 {
                    assert(prefix.contains(prefix[i]));
                }
            }
        }
    }
}

/// A key absent from the distinct keys collects no messages.
proof fn lemma_absent_key_empty(pairs: Seq<(String, String)>, k: Seq<char>)
    requires
        !key_seq(pairs).contains(k),
    ensures
        messages_for(pairs, k).len() == 0,
    decreases pairs.len(),
{
    if pairs.len() > 0 {
        let prefix = pairs.drop_last();
        let ksp = key_seq(prefix);
        if ksp.contains(k) {
            let j = choose|j: int| 0 <= j < ksp.len() && ksp[j] == k;
            assert(key_seq(pairs)[j] == k);
            assert(key_seq(pairs).contains(k));
        }
        lemma_absent_key_empty(prefix, k);
        lemma_messages_push(prefix, pairs.last(), k);
        assert(prefix.push(pairs.last()) =~= pairs);
        if pair_key()(pairs.last()) == k {
            assert(key_seq(pairs).last() == k);
            assert(key_seq(pairs).contains(k));
        }
    } else {
        pairs.lemma_filter_len(has_key(k));
    }
}

/// Error messages grouped under their keys, one entry per distinct key in
/// order of first occurrence.
pub struct ErrorMap {
    errors: Vec<(String, Vec<String>)>,
}

impl ErrorMap {
    /// The grouped entries.
    pub closed spec fn view(&self) -> Seq<(String, Vec<String>)> {
        self.errors@
    }

    /// Groups the pairs by key: entry keys are the distinct pair keys in
    /// order of first occurrence, and each entry holds exactly its key's
    /// messages, in arrival order.
    pub fn from_pairs(pairs: Vec<(String, String)>) -> (m: ErrorMap)
        ensures
            entry_keys(m@) == key_seq(pairs@),
            forall|g: int|
                0 <= g < m@.len() ==> entry_messages(#[trigger] m@[g]) == messages_for(
                    pairs@,
                    m@[g].0@,
                ),
    {
        let n: usize = pairs.len();
        let mut errors: Vec<(String, Vec<String>)> = Vec::new();
        let mut i: usize = 0;
        while i < n
            invariant
                0 <= i <= n,
                n == pairs@.len(),
                entry_keys(errors@) == key_seq(pairs@.subrange(0, i as int)),
                forall|g: int|
                    0 <= g < errors@.len() ==> entry_messages(#[trigger] errors@[g])
                        == messages_for(pairs@.subrange(0, i as int), errors@[g].0@),
            decreases n - i,
        {
            let ghost prefix = pairs@.subrange(0, i as int);
            let ghost old_errors = errors@;
            let (key, message) = (pairs[i].0.clone(), pairs[i].1.clone());
            let k: usize = errors.len();
            let mut g: usize = 0;
            while g < k && !key_equal(&errors[g].0, &key)
                invariant
                    0 <= g <= k,
                    k == errors@.len(),
                    forall|g2: int| 0 <= g2 < g ==> errors@[g2].0@ != key@,
                decreases k - g,
            {
                g = g + 1;
            }
            if g < k {
                let mut entry = errors.remove(g);
                entry.1.push(message);
                errors.insert(g, entry);
                proof {
                    assert(errors@ =~= old_errors.update(g as int, entry));
                }
            } else {
                let mut messages: Vec<String> = Vec::new();
                messages.push(message);
                errors.push((key, messages));
            }
            proof {
                let p = pairs@[i as int];
                let prefix2 = pairs@.subrange(0, i + 1);
                assert(prefix2.drop_last() =~= prefix);
                assert(prefix2.last() == p);
                assert(prefix.push(p) =~= prefix2);
                assert forall|k2: Seq<char>| true implies #[trigger] messages_for(prefix2, k2)
                    == (if p.0@ == k2 {
                        messages_for(prefix, k2).push(p.1@)
                    } else {
                        messages_for(prefix, k2)
                    }) by {
                    lemma_messages_push(prefix, p, k2);
                    assert(messages_for(prefix.push(p), k2) == messages_for(prefix2, k2));
                }
                if g < k {
                    lemma_key_seq_distinct(prefix);
                    assert(entry_keys(old_errors)[g as int] == p.0@);
                    assert(key_seq(prefix).contains(p.0@));
                    assert(key_seq(prefix2) == key_seq(prefix));
                    assert(entry_keys(errors@) =~= entry_keys(old_errors));
                    assert forall|g2: int|
                        0 <= g2 < errors@.len() implies entry_messages(#[trigger] errors@[g2])
                        == messages_for(prefix2, errors@[g2].0@) by {
                        if g2 == g {
                            assert(entry_messages(errors@[g2]) =~= entry_messages(
                                old_errors[g2],
                            ).push(p.1@));
                        } else {
                            assert(errors@[g2] == old_errors[g2]);
                            assert(entry_keys(old_errors)[g2] == old_errors[g2].0@);
                            assert(old_errors[g2].0@ != p.0@);
                        }
                    }
                } else {
                    assert forall|j: int|
                        0 <= j < key_seq(prefix).len() implies key_seq(prefix)[j] != p.0@ by {
                        assert(entry_keys(old_errors)[j] == old_errors[j].0@);
                    }
                    if key_seq(prefix).contains(p.0@) {
                        let j = choose|j: int|
                            0 <= j < key_seq(prefix).len() && key_seq(prefix)[j] == p.0@;
                        assert(false);
                    }
                    assert(key_seq(prefix2) == key_seq(prefix).push(p.0@));
                    assert(entry_keys(errors@) =~= entry_keys(old_errors).push(p.0@));
                    lemma_absent_key_empty(prefix, p.0@);
                    assert(entry_messages(errors@.last()) =~= messages_for(prefix, p.0@).push(
                        p.1@,
                    ));
                    assert forall|g2: int|
                        0 <= g2 < errors@.len() implies entry_messages(#[trigger] errors@[g2])
                        == messages_for(prefix2, errors@[g2].0@) by {
                        if g2 < old_errors.len() {
                            assert(errors@[g2] == old_errors[g2]);
                            assert(entry_keys(old_errors)[g2] == old_errors[g2].0@);
                            assert(old_errors[g2].0@ != p.0@);
                        }
                    }
                }
            }
            i = i + 1;
        }
        proof {
            assert(pairs@.subrange(0, n as int) =~= pairs@);
        }
        ErrorMap { errors }
    }

    /// The grouped entries, for consumers that render or serialise them.
    pub fn entries(&self) -> (r: &Vec<(String, Vec<String>)>)
        ensures
            r@ == self@,
    {
        &self.errors
    }
}

/// Whether two keys hold the same characters.
fn key_equal(a: &String, b: &String) -> (r: bool)
    ensures
        r <==> a@ == b@,
{
    *a == *b
}

} // verus!
