//! Ordering of texts and a stable sort by key.
//!
//! Texts are ordered character by character, by code point, which is the
//! order of their UTF-8 bytes. Entries are ordered by key first and by rank
//! second; entries that agree in both keep the order they came in.

use crate::text::slice;
use vstd::prelude::*;

verus! {

/// `a` comes strictly before `b`, character by character.
pub open spec fn lex_lt(a: Seq<char>, b: Seq<char>) -> bool
    decreases a.len(),
{
    if b.len() == 0 {
        false
    } else if a.len() == 0 {
        true
    } else if a[0] != b[0] {
        a[0] < b[0]
    } else {
        lex_lt(a.drop_first(), b.drop_first())
    }
}

/// No text comes before itself.
pub proof fn lemma_lex_irreflexive(a: Seq<char>)
    ensures
        !lex_lt(a, a),
    decreases a.len(),
{
    if a.len() > 0 {
        lemma_lex_irreflexive(a.drop_first());
    }
}

/// Of two texts that differ, exactly one comes before the other.
pub proof fn lemma_lex_total(a: Seq<char>, b: Seq<char>)
    ensures
        a == b || lex_lt(a, b) || lex_lt(b, a),
        !(lex_lt(a, b) && lex_lt(b, a)),
    decreases a.len(),
{
    if a.len() == 0 || b.len() == 0 {
    } else if a[0] != b[0] {
    } else {
        lemma_lex_total(a.drop_first(), b.drop_first());
        if a.drop_first() == b.drop_first() {
            assert(a =~= seq![a[0]] + a.drop_first());
        }
    }
}

/// Coming before is transitive.
pub proof fn lemma_lex_transitive(a: Seq<char>, b: Seq<char>, c: Seq<char>)
    requires
        lex_lt(a, b),
        lex_lt(b, c),
    ensures
        lex_lt(a, c),
    decreases a.len(),
{
    if a.len() == 0 {
    } else if a[0] != b[0] || b[0] != c[0] {
    } else {
        lemma_lex_transitive(a.drop_first(), b.drop_first(), c.drop_first());
    }
}

/// Whether `a` comes strictly before `b`.
pub fn less(a: &Vec<char>, b: &Vec<char>) -> (r: bool)
    ensures
        r == lex_lt(a@, b@),
{
    let mut i: usize = 0;
    assert(a@.skip(0) =~= a@ && b@.skip(0) =~= b@);
    while i < a.len() && i < b.len()
        invariant
            i <= a.len(),
            i <= b.len(),
            lex_lt(a@, b@) == lex_lt(a@.skip(i as int), b@.skip(i as int)),
        decreases a.len() - i,
    {
        let x: char = a[i];
        let y: char = b[i];
        proof {
            assert(a@.skip(i as int).drop_first() =~= a@.skip(i + 1));
            assert(b@.skip(i as int).drop_first() =~= b@.skip(i + 1));
        }
        if x != y {
            return x < y;
        }
        i += 1;
    }
    i < b.len()
}

/// What a sort goes by, and what it carries along.
pub struct Entry {
    pub key: Seq<char>,
    pub rank: nat,
    pub text: Seq<char>,
}

/// An entry as executable code holds it.
pub struct Keyed {
    pub key: Vec<char>,
    pub rank: usize,
    pub text: Vec<char>,
}

impl View for Keyed {
    type V = Entry;

    open spec fn view(&self) -> Entry {
        Entry { key: self.key@, rank: self.rank as nat, text: self.text@ }
    }
}

/// The entries that a list holds.
pub open spec fn entries(v: Seq<Keyed>) -> Seq<Entry> {
    v.map_values(|k: Keyed| k@)
}

/// The texts that entries carry.
pub open spec fn carried(s: Seq<Entry>) -> Seq<Seq<char>> {
    s.map_values(|e: Entry| e.text)
}

/// `a` may stand before `b`: its key comes first, or the keys are the same
/// and its rank is not the greater.
pub open spec fn entry_le(a: Entry, b: Entry) -> bool {
    lex_lt(a.key, b.key) || (a.key == b.key && a.rank <= b.rank)
}

/// `s` with `e` put behind the last entry that may stand before it.
pub open spec fn inserted(s: Seq<Entry>, e: Entry) -> Seq<Entry>
    decreases s.len(),
{
    if s.len() == 0 {
        seq![e]
    } else if entry_le(s.last(), e) {
        s.push(e)
    } else {
        inserted(s.drop_last(), e).push(s.last())
    }
}

/// The entries of `s` in order; entries that agree in key and rank stay in
/// the order they have in `s`.
pub open spec fn sorted(s: Seq<Entry>) -> Seq<Entry>
    decreases s.len(),
{
    if s.len() == 0 {
        s
    } else {
        inserted(sorted(s.drop_last()), s.last())
    }
}

/// Each entry may stand before every later one.
pub open spec fn in_order(s: Seq<Entry>) -> bool {
    forall|i: int, j: int| 0 <= i < j < s.len() ==> entry_le(#[trigger] s[i], #[trigger] s[j])
}

/// Of two entries, one may stand before the other.
pub proof fn lemma_entry_total(a: Entry, b: Entry)
    ensures
        entry_le(a, b) || entry_le(b, a),
{
    lemma_lex_total(a.key, b.key);
}

/// Standing before is transitive.
pub proof fn lemma_entry_transitive(a: Entry, b: Entry, c: Entry)
    requires
        entry_le(a, b),
        entry_le(b, c),
    ensures
        entry_le(a, c),
{
    if lex_lt(a.key, b.key) && lex_lt(b.key, c.key) {
        lemma_lex_transitive(a.key, b.key, c.key);
    }
}

/// Where `inserted` puts an entry: behind position `at` when the entry
/// before `at` may stand before it and none from `at` on may.
pub proof fn lemma_inserted_at(s: Seq<Entry>, e: Entry, at: int)
    requires
        0 <= at <= s.len(),
        at == 0 || entry_le(s[at - 1], e),
        forall|k: int| at <= k < s.len() ==> !entry_le(#[trigger] s[k], e),
    ensures
        inserted(s, e) == s.take(at).push(e) + s.skip(at),
    decreases s.len() - at,
{
    if s.len() == 0 {
    } else if at == s.len() {
    } else {
        let t = s.drop_last();
        lemma_inserted_at(t, e, at);
    }
}

/// Inserting into entries that are in order leaves them in order, and adds
/// the one entry to them.
pub proof fn lemma_inserted(s: Seq<Entry>, e: Entry)
    requires
        in_order(s),
    ensures
        in_order(inserted(s, e)),
        inserted(s, e).to_multiset() == s.to_multiset().insert(e),
        inserted(s, e).len() == s.len() + 1,
    decreases s.len(),
{
    broadcast use vstd::seq_lib::group_to_multiset_ensures;

    if s.len() == 0 {
    } else if entry_le(s.last(), e) {
        let r = s.push(e);
        assert forall|i: int, j: int| 0 <= i < j < r.len() implies entry_le(
            #[trigger] r[i],
            #[trigger] r[j],
        ) by {
            if j == s.len() {
                if i < s.len() - 1 {
                    lemma_entry_transitive(s[i], s.last(), e);
                }
            }
        }
    } else {
        let t = s.drop_last();
        lemma_inserted(t, e);
        let u = inserted(t, e);
        let r = u.push(s.last());
        lemma_entry_total(s.last(), e);
        assert forall|i: int, j: int| 0 <= i < j < r.len() implies entry_le(
            #[trigger] r[i],
            #[trigger] r[j],
        ) by {
            if j == u.len() {
                // every entry of u is e or an entry of t
                assert(u.to_multiset().count(u[i]) > 0);
            }
        }
        assert(s =~= t.push(s.last()));
    }
}

/// A sort puts its entries in order and neither adds nor drops one.
pub proof fn lemma_sorted(s: Seq<Entry>)
    ensures
        in_order(sorted(s)),
        sorted(s).to_multiset() == s.to_multiset(),
        sorted(s).len() == s.len(),
    decreases s.len(),
{
    broadcast use vstd::seq_lib::group_to_multiset_ensures;

    if s.len() > 0 {
        lemma_sorted(s.drop_last());
        lemma_inserted(sorted(s.drop_last()), s.last());
        assert(s =~= s.drop_last().push(s.last()));
    }
}

/// Entries that are in order stay as they are when they are sorted.
pub proof fn lemma_sorted_fixed(s: Seq<Entry>)
    requires
        in_order(s),
    ensures
        sorted(s) == s,
    decreases s.len(),
{
    if s.len() > 0 {
        let init = s.drop_last();
        lemma_sorted_fixed(init);
    }
}

/// Sorting a second time changes nothing.
pub proof fn lemma_sorted_twice(s: Seq<Entry>)
    ensures
        sorted(sorted(s)) == sorted(s),
{
    lemma_sorted(s);
    lemma_sorted_fixed(sorted(s));
}

/// Sorts `list` by key and rank; entries that agree in both keep their
/// order.
pub fn sort(list: &Vec<Keyed>) -> (out: Vec<Keyed>)
    ensures
        entries(out@) == sorted(entries(list@)),
{
    let mut out: Vec<Keyed> = Vec::new();
    let ghost all = entries(list@);
    let mut done: usize = 0;
    while done < list.len()
        invariant
            done <= list.len(),
            all == entries(list@),
            entries(out@) == sorted(all.take(done as int)),
        decreases list.len() - done,
    {
        let ghost before_out = entries(out@);
        let item = &list[done];
        let e = Keyed {
            key: slice(&item.key, 0, item.key.len()),
            rank: item.rank,
            text: slice(&item.text, 0, item.text.len()),
        };
        proof {
            assert(item.key@.subrange(0, item.key@.len() as int) =~= item.key@);
            assert(item.text@.subrange(0, item.text@.len() as int) =~= item.text@);
            assert(all.take(done + 1).drop_last() =~= all.take(done as int));
        }
        let mut at: usize = out.len();
        while at > 0 && !may_precede(&out[at - 1], &e)
            invariant
                at <= out.len(),
                entries(out@) == before_out,
                forall|k: int| at <= k < out.len() ==> !entry_le(#[trigger] entries(out@)[k], e@),
            decreases at,
        {
            at -= 1;
        }
        proof {
            lemma_inserted_at(before_out, e@, at as int);
        }
        out.insert(at, e);
        done += 1;
    }
    assert(all.take(all.len() as int) =~= all);
    out
}

/// Whether `a` may stand before `b`.
pub fn may_precede(a: &Keyed, b: &Keyed) -> (r: bool)
    ensures
        r == entry_le(a@, b@),
{
    if less(&a.key, &b.key) {
        return true;
    }
    if less(&b.key, &a.key) {
        proof {
            lemma_lex_total(a.key@, b.key@);
            lemma_lex_irreflexive(a.key@);
        }
        return false;
    }
    proof {
        lemma_lex_total(a.key@, b.key@);
    }
    a.rank <= b.rank
}

} // verus!
