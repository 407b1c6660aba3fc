//! Removal of repeated lines, with a hash set of the `ahash` crate to tell
//! which lines were seen before.

use crate::text::{slice, string_of, texts};
use vstd::prelude::*;

verus! {

#[verifier::external_type_specification]
#[verifier::external_body]
pub struct ExRandomState(ahash::RandomState);

#[verifier::external_type_specification]
#[verifier::external_body]
#[verifier::reject_recursive_types(T)]
#[verifier::reject_recursive_types(S)]
pub struct ExAHashSet<T, S>(ahash::AHashSet<T, S>);

/// The texts that a set of strings holds.
pub uninterp spec fn set_texts(set: ahash::AHashSet<String>) -> Set<Seq<char>>;

/// `AHashSet::new` of the `ahash` crate: a set that holds nothing.
#[verifier::external_body]
fn new_set() -> (set: ahash::AHashSet<String>)
    ensures
        set_texts(set) == Set::<Seq<char>>::empty(),
{
    ahash::AHashSet::new()
}

/// `HashSet::insert` of std, which an `AHashSet` hands on to the set it
/// wraps: the set then holds the item as well, and the result tells whether
/// it was new to the set.
#[verifier::external_body]
fn set_insert(set: &mut ahash::AHashSet<String>, item: String) -> (fresh: bool)
    ensures
        fresh == !set_texts(*old(set)).contains(item@),
        set_texts(*final(set)) == set_texts(*old(set)).insert(item@),
{
    set.insert(item)
}

/// The texts of `s` without those that occurred earlier in `s`, in order.
pub open spec fn first_occurrences(s: Seq<Seq<char>>) -> Seq<Seq<char>>
    decreases s.len(),
{
    if s.len() == 0 {
        s
    } else {
        let head = first_occurrences(s.drop_last());
        if s.drop_last().contains(s.last()) {
            head
        } else {
            head.push(s.last())
        }
    }
}

/// What `first_occurrences` returns holds every text of `s`, each once, and
/// no other.
pub proof fn lemma_first_occurrences(s: Seq<Seq<char>>)
    ensures
        first_occurrences(s).no_duplicates(),
        forall|t: Seq<char>| first_occurrences(s).contains(t) <==> s.contains(t),
    decreases s.len(),
{
    if s.len() > 0 {
        let init = s.drop_last();
        let head = first_occurrences(init);
        lemma_first_occurrences(init);
        assert forall|t: Seq<char>| first_occurrences(s).contains(t) <==> s.contains(t) by {
            if s.contains(t) {
                let k = choose|k: int| 0 <= k < s.len() && s[k] == t;
                if k < s.len() - 1 {
                    assert(init[k] == t);
                    assert(init.contains(t));
                    let j = choose|j: int| 0 <= j < head.len() && head[j] == t;
                    assert(first_occurrences(s)[j] == t);
                } else {
                    if !init.contains(t) {
                        assert(first_occurrences(s)[head.len() as int] == t);
                    }
                }
            }
            if first_occurrences(s).contains(t) {
                let j = choose|j: int|
                    0 <= j < first_occurrences(s).len() && first_occurrences(s)[j] == t;
                if j < head.len() {
                    assert(init.contains(t));
                }
            }
        }
    }
}

/// A list in which no text occurs twice stays as it is.
pub proof fn lemma_first_occurrences_fixed(s: Seq<Seq<char>>)
    requires
        s.no_duplicates(),
    ensures
        first_occurrences(s) == s,
    decreases s.len(),
{
    if s.len() > 0 {
        let init = s.drop_last();
        lemma_first_occurrences_fixed(init);
    }
}

/// Removing repeated texts a second time changes nothing.
pub proof fn lemma_first_occurrences_twice(s: Seq<Seq<char>>)
    ensures
        first_occurrences(first_occurrences(s)) == first_occurrences(s),
{
    lemma_first_occurrences(s);
    lemma_first_occurrences_fixed(first_occurrences(s));
}

/// The texts of `s` that occurred earlier in `s`, in order: what
/// `first_occurrences` leaves out.
pub open spec fn repeats(s: Seq<Seq<char>>) -> Seq<Seq<char>>
    decreases s.len(),
{
    if s.len() == 0 {
        s
    } else {
        let head = repeats(s.drop_last());
        if s.drop_last().contains(s.last()) {
            head.push(s.last())
        } else {
            head
        }
    }
}

/// Removes from `lines` each line that occurred earlier in it; what stays
/// keeps its order.
pub fn unique(lines: &Vec<Vec<char>>) -> (out: Vec<Vec<char>>)
    ensures
        texts(out@) == first_occurrences(texts(lines@)),
{
    let mut dropped: Vec<Vec<char>> = Vec::new();
    unique_noting(lines, &mut dropped)
}

/// Removes from `lines` each line that occurred earlier in it, and notes
/// each line that it removes.
pub fn unique_noting(lines: &Vec<Vec<char>>, dropped: &mut Vec<Vec<char>>) -> (out: Vec<
    Vec<char>,
>)
    ensures
        texts(out@) == first_occurrences(texts(lines@)),
        texts(final(dropped)@) == texts(old(dropped)@) + repeats(texts(lines@)),
{
    let mut seen = new_set();
    let mut out: Vec<Vec<char>> = Vec::new();
    let mut i: usize = 0;
    let ghost all = texts(lines@);
    let ghost noted = texts(dropped@);
    while i < lines.len()
        invariant
            i <= lines.len(),
            all == texts(lines@),
            texts(out@) == first_occurrences(all.take(i as int)),
            texts(dropped@) == noted + repeats(all.take(i as int)),
            forall|t: Seq<char>| set_texts(seen).contains(t) <==> all.take(i as int).contains(t),
        decreases lines.len() - i,
    {
        let line = &lines[i];
        let ghost dropped_before = dropped@;
        let ghost known = all.take(i as int);
        proof {
            assert(all.take(i + 1).drop_last() =~= known);
            assert(all.take(i + 1).last() == line@);
        }
        let fresh = set_insert(&mut seen, string_of(line));
        if fresh {
            out.push(slice(line, 0, line.len()));
            proof {
                assert(line@.subrange(0, line@.len() as int) =~= line@);
            }
        } else {
            dropped.push(slice(line, 0, line.len()));
            proof {
                assert(line@.subrange(0, line@.len() as int) =~= line@);
                assert(texts(dropped@) =~= texts(dropped_before).push(line@));
            }
        }
        i += 1;
    }
    assert(all.take(all.len() as int) =~= all);
    out
}

/// `s` without each text that equals the one before it.
pub open spec fn without_repeats(s: Seq<Seq<char>>) -> Seq<Seq<char>>
    decreases s.len(),
{
    if s.len() <= 1 {
        s
    } else {
        let head = without_repeats(s.drop_last());
        if s.last() == s[s.len() - 2] {
            head
        } else {
            head.push(s.last())
        }
    }
}

/// Removes from `lines` each line that equals the one before it.
pub fn drop_repeats(lines: &Vec<Vec<char>>) -> (out: Vec<Vec<char>>)
    ensures
        texts(out@) == without_repeats(texts(lines@)),
{
    let mut out: Vec<Vec<char>> = Vec::new();
    let mut i: usize = 0;
    let ghost all = texts(lines@);
    while i < lines.len()
        invariant
            i <= lines.len(),
            all == texts(lines@),
            texts(out@) == without_repeats(all.take(i as int)),
        decreases lines.len() - i,
    {
        let line = &lines[i];
        proof {
            assert(all.take(i + 1).drop_last() =~= all.take(i as int));
        }
        if i == 0 || !crate::text::same(line, &lines[i - 1]) {
            out.push(slice(line, 0, line.len()));
            proof {
                assert(line@.subrange(0, line@.len() as int) =~= line@);
            }
        }
        i += 1;
    }
    assert(all.take(all.len() as int) =~= all);
    out
}

/// What `without_repeats` returns: texts of the list, the last of them the
/// last of the list, and no two neighbours the same.
pub proof fn lemma_without_repeats(s: Seq<Seq<char>>)
    ensures
        forall|i: int|
            0 <= i < without_repeats(s).len() ==> s.contains(#[trigger] without_repeats(s)[i]),
        s.len() > 0 ==> without_repeats(s).len() > 0 && without_repeats(s).last() == s.last(),
        forall|i: int|
            0 <= i < without_repeats(s).len() - 1 ==> #[trigger] without_repeats(s)[i]
                != without_repeats(s)[i + 1],
    decreases s.len(),
{
    if s.len() > 1 {
        let init = s.drop_last();
        lemma_without_repeats(init);
    }
}

/// A list in which no two neighbours are the same stays as it is.
pub proof fn lemma_without_repeats_fixed(s: Seq<Seq<char>>)
    requires
        forall|i: int| 0 <= i < s.len() - 1 ==> #[trigger] s[i] != s[i + 1],
    ensures
        without_repeats(s) == s,
    decreases s.len(),
{
    if s.len() > 1 {
        let init = s.drop_last();
        lemma_without_repeats_fixed(init);
    }
}

} // verus!
