//! The order of domains and options, and their sorting.
//!
//! A domain is sorted by its name without the `~` in front; its exclusion,
//! the same name with `~` in front, directly follows it. Options are sorted
//! the same way.

use crate::order::{
    carried, entries, entry_le, lemma_entry_total, lemma_entry_transitive, lemma_sorted, sort,
    sorted, Entry, Keyed,
};
use crate::text::{
    copy, is_char, leading, lemma_leading, lemma_leading_run, strings, strings_of,
    strip_leading, texts, texts_of, without_leading,
};
use vstd::prelude::*;

verus! {

/// What a domain or an option is sorted by: its name without the `~` in
/// front, then the number of `~` in front.
pub open spec fn token_entry(token: Seq<char>) -> Entry {
    Entry { key: without_leading(token, '~'), rank: leading(token, is_char('~')), text: token }
}

/// The entries of a list of domains.
pub open spec fn token_entries(tokens: Seq<Seq<char>>) -> Seq<Entry> {
    tokens.map_values(|t: Seq<char>| token_entry(t))
}

/// `a` may stand before `b` in a sorted list of domains.
pub open spec fn token_le(a: Seq<char>, b: Seq<char>) -> bool {
    entry_le(token_entry(a), token_entry(b))
}

/// The domains of `tokens`, sorted by name; a domain with `~` in front
/// directly follows the same domain without.
pub open spec fn sorted_tokens(tokens: Seq<Seq<char>>) -> Seq<Seq<char>> {
    carried(sorted(token_entries(tokens)))
}

/// Of two domains, one may stand before the other.
pub proof fn lemma_token_order_total(a: Seq<char>, b: Seq<char>)
    ensures
        token_le(a, b) || token_le(b, a),
{
    lemma_entry_total(token_entry(a), token_entry(b));
}

/// The order of domains is transitive.
pub proof fn lemma_token_order_transitive(a: Seq<char>, b: Seq<char>, c: Seq<char>)
    requires
        token_le(a, b),
        token_le(b, c),
    ensures
        token_le(a, c),
{
    lemma_entry_transitive(token_entry(a), token_entry(b), token_entry(c));
}

/// A text is its leading `~` followed by its name.
proof fn lemma_token_parts(t: Seq<char>, u: Seq<char>)
    requires
        leading(t, is_char('~')) == leading(u, is_char('~')),
        without_leading(t, '~') == without_leading(u, '~'),
    ensures
        t == u,
{
    let n = leading(t, is_char('~')) as int;
    lemma_leading_run(t, is_char('~'));
    lemma_leading_run(u, is_char('~'));
    assert(t.len() == n + t.skip(n).len());
    assert forall|i: int| 0 <= i < t.len() implies t[i] == u[i] by {
        if i >= n {
            assert(t[i] == t.skip(n)[i - n]);
        }
    }
}

/// Two domains that may each stand before the other are the same domain:
/// the order of domains is a total order.
pub proof fn lemma_token_order_antisymmetric(a: Seq<char>, b: Seq<char>)
    requires
        token_le(a, b),
        token_le(b, a),
    ensures
        a == b,
{
    crate::order::lemma_lex_total(token_entry(a).key, token_entry(b).key);
    lemma_token_parts(a, b);
}

/// The exclusion of a domain, `~` and the domain, comes directly after the
/// domain itself: it stands behind it, and no text of the same name stands
/// strictly between the two.
pub proof fn lemma_exclusion_follows(domain: Seq<char>, other: Seq<char>)
    requires
        domain.len() == 0 || domain[0] != '~',
    ensures
        token_le(domain, seq!['~'] + domain),
        !token_le(seq!['~'] + domain, domain),
        without_leading(other, '~') == domain ==> token_le(other, domain) || token_le(
            seq!['~'] + domain,
            other,
        ),
{
    let ex = seq!['~'] + domain;
    lemma_leading(domain, is_char('~'), 0);
    lemma_leading(ex, is_char('~'), 1);
    assert(ex.skip(1) =~= domain);
    assert(domain.skip(0) =~= domain);
    crate::order::lemma_lex_irreflexive(domain);
}

/// Sorting puts the domains in order and neither adds nor drops one.
pub proof fn lemma_sorted_tokens(tokens: Seq<Seq<char>>)
    ensures
        sorted_tokens(tokens).len() == tokens.len(),
        sorted_tokens(tokens).to_multiset() == tokens.to_multiset(),
        forall|i: int, j: int|
            0 <= i < j < tokens.len() ==> token_le(
                #[trigger] sorted_tokens(tokens)[i],
                #[trigger] sorted_tokens(tokens)[j],
            ),
{
    let e = token_entries(tokens);
    let s = sorted(e);
    lemma_sorted(e);
    lemma_entries_texts(s, tokens);
    let r = sorted_tokens(tokens);
    assert forall|i: int, j: int| 0 <= i < j < tokens.len() implies token_le(
        #[trigger] r[i],
        #[trigger] r[j],
    ) by {
        lemma_entry_of_sorted(e, i);
        lemma_entry_of_sorted(e, j);
    }
}

/// Domains that are in order stay as they are when they are sorted.
pub proof fn lemma_sorted_tokens_fixed(tokens: Seq<Seq<char>>)
    requires
        forall|i: int, j: int|
            0 <= i < j < tokens.len() ==> token_le(#[trigger] tokens[i], #[trigger] tokens[j]),
    ensures
        sorted_tokens(tokens) == tokens,
{
    let e = token_entries(tokens);
    crate::order::lemma_sorted_fixed(e);
}

/// Sorting domains a second time changes nothing.
pub proof fn lemma_sorted_tokens_twice(tokens: Seq<Seq<char>>)
    ensures
        sorted_tokens(sorted_tokens(tokens)) == sorted_tokens(tokens),
{
    let e = token_entries(tokens);
    let s = sorted(e);
    lemma_sorted(e);
    assert forall|i: int| 0 <= i < s.len() implies #[trigger] s[i] == token_entry(s[i].text) by {
        lemma_entry_of_sorted(e, i);
    }
    assert(token_entries(carried(s)) =~= s);
    crate::order::lemma_sorted_twice(e);
}

/// Every entry of a sorted list is an entry of the list that was sorted.
proof fn lemma_entry_of_sorted(e: Seq<Entry>, i: int)
    requires
        0 <= i < e.len(),
        forall|k: int| 0 <= k < e.len() ==> #[trigger] e[k] == token_entry(e[k].text),
    ensures
        sorted(e).len() == e.len(),
        sorted(e)[i] == token_entry(sorted(e)[i].text),
{
    broadcast use vstd::seq_lib::group_to_multiset_ensures;

    lemma_sorted(e);
    let s = sorted(e);
    assert(s.to_multiset().count(s[i]) > 0);
}

/// The texts that domain entries carry are a rearrangement of the domains
/// when the entries are a rearrangement of the domains' entries.
proof fn lemma_entries_texts(s: Seq<Entry>, tokens: Seq<Seq<char>>)
    requires
        s.to_multiset() == token_entries(tokens).to_multiset(),
    ensures
        carried(s).to_multiset() == tokens.to_multiset(),
        s.len() == tokens.len(),
    decreases s.len(),
{
    broadcast use vstd::seq_lib::group_to_multiset_ensures;

    let e = token_entries(tokens);
    vstd::seq_lib::lemma_multiset_commutative(s, Seq::<Entry>::empty());
    assert(s.to_multiset().len() == s.len());
    if s.len() > 0 {
        let last = s.last();
        assert(s.to_multiset().count(last) > 0);
        let k = choose|k: int| 0 <= k < e.len() && e[k] == last;
        let s1 = s.drop_last();
        let t1 = tokens.remove(k);
        assert(token_entries(t1) =~= e.remove(k));
        assert(s =~= s1.push(last));
        assert(s1.to_multiset() =~= s.to_multiset().remove(last));
        lemma_entries_texts(s1, t1);
        assert(carried(s) =~= carried(s1).push(last.text));
    }
}

/// The entry that a domain is sorted by.
fn keyed(token: &Vec<char>) -> (k: Keyed)
    ensures
        k@ == token_entry(token@),
{
    let name = strip_leading(token, '~');
    proof {
        lemma_leading_run(token@, is_char('~'));
    }
    Keyed { rank: token.len() - name.len(), key: name, text: copy(token) }
}

/// Sorts domains by name, each exclusion directly behind its domain.
pub fn sort_tokens(tokens: &Vec<Vec<char>>) -> (out: Vec<Vec<char>>)
    ensures
        texts(out@) == sorted_tokens(texts(tokens@)),
{
    let mut list: Vec<Keyed> = Vec::new();
    let mut i: usize = 0;
    while i < tokens.len()
        invariant
            i <= tokens.len(),
            entries(list@) == token_entries(texts(tokens@).take(i as int)),
        decreases tokens.len() - i,
    {
        let ghost before = list@;
        list.push(keyed(&tokens[i]));
        proof {
            let all = texts(tokens@);
            assert(entries(list@) =~= entries(before).push(token_entry(all[i as int])));
        }
        i += 1;
    }
    assert(texts(tokens@).take(tokens.len() as int) =~= texts(tokens@));
    let done = sort(&list);
    let mut out: Vec<Vec<char>> = Vec::new();
    let mut j: usize = 0;
    while j < done.len()
        invariant
            j <= done.len(),
            texts(out@) == carried(entries(done@).take(j as int)),
        decreases done.len() - j,
    {
        let ghost before = out@;
        out.push(copy(&done[j].text));
        proof {
            let all = entries(done@);
            assert(texts(out@) =~= texts(before).push(all[j as int].text));
        }
        j += 1;
    }
    out
}

/// Sorts domains by name, each exclusion directly behind its domain.
pub fn sort_domains(domains: &mut Vec<String>)
    ensures
        strings(final(domains)@) == sorted_tokens(strings(old(domains)@)),
{
    let tokens = texts_of(domains);
    let out = sort_tokens(&tokens);
    *domains = strings_of(&out);
}

} // verus!
