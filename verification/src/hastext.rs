//! Merging of cosmetic rules that differ only in the text their last
//! operator looks for.
//!
//! A rule takes part when it is written with `##` and its selector ends in
//! one call of `:has-text(..)` or `:-abp-contains(..)`. Rules with the same
//! domains, the same selector before the call and the same operator form a
//! group. A group of two or more becomes one rule, in the place of its
//! first member, whose argument is a regular expression with one
//! alternative for each member.

use crate::text::{
    append, copy, find, index_of, join, joined, lemma_index_from, occurs_at, same, slice,
    strings, strings_of, texts, texts_of,
};
use vstd::prelude::*;

verus! {

/// The parts of a rule that takes part.
pub struct Call {
    pub domains: Seq<char>,
    pub base: Seq<char>,
    pub operator: Seq<char>,
    pub argument: Seq<char>,
}

/// The parts of a rule as executable code holds them.
pub struct ParsedCall {
    pub domains: Vec<char>,
    pub base: Vec<char>,
    pub operator: Vec<char>,
    pub argument: Vec<char>,
}

impl View for ParsedCall {
    type V = Call;

    open spec fn view(&self) -> Call {
        Call {
            domains: self.domains@,
            base: self.base@,
            operator: self.operator@,
            argument: self.argument@,
        }
    }
}

/// The first operator as it begins a call.
pub open spec fn has_text_mark() -> Seq<char> {
    seq![':', 'h', 'a', 's', '-', 't', 'e', 'x', 't', '(']
}

/// The second operator as it begins a call.
pub open spec fn contains_mark() -> Seq<char> {
    seq![':', '-', 'a', 'b', 'p', '-', 'c', 'o', 'n', 't', 'a', 'i', 'n', 's', '(']
}

/// By how many the `(` of `s` outnumber its `)`.
pub open spec fn paren_depth(s: Seq<char>) -> int
    decreases s.len(),
{
    if s.len() == 0 {
        0
    } else {
        paren_depth(s.drop_last()) + (if s.last() == '(' {
            1int
        } else if s.last() == ')' {
            -1int
        } else {
            0int
        })
    }
}

/// The parentheses of `s` match: each `)` closes a `(` before it, and none
/// stays open.
pub open spec fn balanced(s: Seq<char>) -> bool {
    paren_depth(s) == 0 && forall|k: int| 0 <= k <= s.len() ==> paren_depth(#[trigger] s.take(k))
        >= 0
}

/// A character that cannot begin or be part of a domain list.
pub open spec fn not_in_domains(c: char) -> bool {
    c == '/' || c == '|' || c == '@' || c == '"' || c == '!' || c == '#'
}

/// The call at index `at` of `selector`, which begins with `mark`: the
/// selector ends with `)`, and what stands between the mark and that `)` is
/// not empty, has matching parentheses and holds no further call.
pub open spec fn call_at(selector: Seq<char>, at: int, mark: Seq<char>) -> Option<(
    Seq<char>,
    Seq<char>,
)> {
    let from = at + mark.len();
    if occurs_at(selector, mark, at) && from < selector.len() - 1 && selector.last() == ')' {
        let argument = selector.subrange(from, selector.len() - 1);
        if balanced(argument) && index_of(argument, has_text_mark()) is None && index_of(
            argument,
            contains_mark(),
        ) is None {
            Some((selector.subrange(0, at), argument))
        } else {
            None
        }
    } else {
        None
    }
}

/// The parts of `line`, if it takes part: a domain list, `##`, and a
/// selector that ends in one call of one of the two operators.
pub open spec fn parsed(line: Seq<char>) -> Option<Call> {
    match index_of(line, seq!['#', '#']) {
        Some(cut) => {
            let domains = line.subrange(0, cut);
            let selector = line.subrange(cut + 2, line.len() as int);
            if exists|k: int| 0 <= k < domains.len() && not_in_domains(#[trigger] domains[k]) {
                None
            } else {
                match (index_of(selector, has_text_mark()), index_of(selector, contains_mark())) {
                    (Some(h), None) => match call_at(selector, h, has_text_mark()) {
                        Some(parts) => Some(
                            Call {
                                domains,
                                base: parts.0,
                                operator: has_text_mark(),
                                argument: parts.1,
                            },
                        ),
                        None => None,
                    },
                    (None, Some(c)) => match call_at(selector, c, contains_mark()) {
                        Some(parts) => Some(
                            Call {
                                domains,
                                base: parts.0,
                                operator: contains_mark(),
                                argument: parts.1,
                            },
                        ),
                        None => None,
                    },
                    _ => None,
                }
            }
        },
        None => None,
    }
}

/// Two rules are of one group.
pub open spec fn same_group(a: Call, b: Call) -> bool {
    a.domains == b.domains && a.base == b.base && a.operator == b.operator
}

/// A character that has a meaning in a regular expression.
pub open spec fn special(c: char) -> bool {
    c == '\\' || c == '.' || c == '+' || c == '*' || c == '?' || c == '(' || c == ')' || c == '['
        || c == ']' || c == '{' || c == '}' || c == '|' || c == '^' || c == '$'
}

/// `s` with a backslash before each character that has a meaning in a
/// regular expression.
pub open spec fn escaped(s: Seq<char>) -> Seq<char>
    decreases s.len(),
{
    if s.len() == 0 {
        s
    } else if special(s.last()) {
        escaped(s.drop_last()).push('\\').push(s.last())
    } else {
        escaped(s.drop_last()).push(s.last())
    }
}

/// What an argument adds to the merged regular expression: the inside of
/// an argument written between two `/`, any other argument escaped.
pub open spec fn fragment(argument: Seq<char>) -> Seq<char> {
    if argument.len() >= 2 && argument[0] == '/' && argument.last() == '/' {
        argument.subrange(1, argument.len() - 1)
    } else {
        escaped(argument)
    }
}

/// The fragments of the rules of `lines` that are of the group of `of`, in
/// order.
pub open spec fn group_fragments(lines: Seq<Seq<char>>, of: Call) -> Seq<Seq<char>>
    decreases lines.len(),
{
    if lines.len() == 0 {
        lines
    } else {
        let head = group_fragments(lines.drop_last(), of);
        match parsed(lines.last()) {
            Some(c) => if same_group(c, of) {
                head.push(fragment(c.argument))
            } else {
                head
            },
            None => head,
        }
    }
}

/// The one rule that stands for a group.
pub open spec fn merged_rule(of: Call, fragments: Seq<Seq<char>>) -> Seq<char> {
    of.domains + seq!['#', '#'] + of.base + of.operator + seq!['/'] + joined(
        fragments,
        seq!['|'],
    ) + seq!['/', ')']
}

/// What is written out for the rule at index `i` of `lines`: the rule
/// itself when it takes no part or is alone in its group; nothing when a
/// rule of its group stands before it; else the rule that stands for its
/// group.
pub open spec fn slot(lines: Seq<Seq<char>>, i: int) -> Seq<Seq<char>> {
    match parsed(lines[i]) {
        None => seq![lines[i]],
        Some(c) => if group_fragments(lines.take(i), c).len() > 0 {
            Seq::<Seq<char>>::empty()
        } else if group_fragments(lines, c).len() <= 1 {
            seq![lines[i]]
        } else {
            seq![merged_rule(c, group_fragments(lines, c))]
        },
    }
}

/// The merged rule that is written out for the rule at index `i` of
/// `lines`, if one is.
pub open spec fn slot_merge(lines: Seq<Seq<char>>, i: int) -> Seq<Seq<char>> {
    match parsed(lines[i]) {
        None => Seq::<Seq<char>>::empty(),
        Some(c) => if group_fragments(lines.take(i), c).len() == 0 && group_fragments(
            lines,
            c,
        ).len() > 1 {
            seq![merged_rule(c, group_fragments(lines, c))]
        } else {
            Seq::<Seq<char>>::empty()
        },
    }
}

/// The merged rules that are written out for the first `n` rules of
/// `lines`.
pub open spec fn merges_upto(lines: Seq<Seq<char>>, n: int) -> Seq<Seq<char>>
    decreases n,
{
    if n <= 0 {
        Seq::<Seq<char>>::empty()
    } else {
        merges_upto(lines, n - 1) + slot_merge(lines, n - 1)
    }
}

/// The merged rules that merging the rules of `lines` makes, in order.
pub open spec fn has_text_merges(lines: Seq<Seq<char>>) -> Seq<Seq<char>> {
    merges_upto(lines, lines.len() as int)
}

/// What is written out for the first `n` rules of `lines`.
pub open spec fn merged_upto(lines: Seq<Seq<char>>, n: int) -> Seq<Seq<char>>
    decreases n,
{
    if n <= 0 {
        Seq::<Seq<char>>::empty()
    } else {
        merged_upto(lines, n - 1) + slot(lines, n - 1)
    }
}

/// The rules of `lines` with each group of two or more merged into one
/// rule.
pub open spec fn has_text_merged(lines: Seq<Seq<char>>) -> Seq<Seq<char>> {
    merged_upto(lines, lines.len() as int)
}

/// Two rules of one group become exactly one rule, whose argument holds
/// the fragment of the first, `|`, and the fragment of the second.
pub proof fn lemma_pair_merges(a: Seq<char>, b: Seq<char>)
    requires
        parsed(a) is Some,
        parsed(b) is Some,
        same_group(parsed(a)->0, parsed(b)->0),
    ensures
        has_text_merged(seq![a, b]) == seq![
            merged_rule(
                parsed(a)->0,
                seq![fragment(parsed(a)->0.argument), fragment(parsed(b)->0.argument)],
            ),
        ],
{
    let lines = seq![a, b];
    let ca = parsed(a)->0;
    let cb = parsed(b)->0;
    let none = Seq::<Seq<char>>::empty();
    assert(lines.drop_last() =~= seq![a]);
    assert(seq![a].drop_last() =~= none);
    assert(group_fragments(none, ca) =~= none);
    assert(group_fragments(seq![a], ca) =~= seq![fragment(ca.argument)]);
    assert(group_fragments(lines, ca) =~= seq![fragment(ca.argument), fragment(cb.argument)]);
    assert(merged_upto(lines, 0) =~= none);
    assert(merged_upto(lines, 1) =~= slot(lines, 0));
}

fn is_balanced(s: &Vec<char>) -> (b: bool)
    ensures
        b == balanced(s@),
{
    let mut depth: usize = 0;
    let mut i: usize = 0;
    while i < s.len()
        invariant
            i <= s.len(),
            depth <= i,
            depth == paren_depth(s@.take(i as int)),
            forall|k: int| 0 <= k <= i ==> paren_depth(#[trigger] s@.take(k)) >= 0,
        decreases s.len() - i,
    {
        proof {
            assert(s@.take(i + 1).drop_last() =~= s@.take(i as int));
        }
        let c = s[i];
        if c == '(' {
            depth += 1;
        } else if c == ')' {
            if depth == 0 {
                return false;
            }
            depth -= 1;
        }
        i += 1;
    }
    assert(s@.take(s.len() as int) =~= s@);
    depth == 0
}

fn has_text_marker() -> (m: Vec<char>)
    ensures
        m@ == has_text_mark(),
{
    let m: Vec<char> = vec![':', 'h', 'a', 's', '-', 't', 'e', 'x', 't', '('];
    m
}

fn contains_marker() -> (m: Vec<char>)
    ensures
        m@ == contains_mark(),
{
    let m: Vec<char> = vec![
        ':',
        '-',
        'a',
        'b',
        'p',
        '-',
        'c',
        'o',
        'n',
        't',
        'a',
        'i',
        'n',
        's',
        '(',
    ];
    m
}

fn read_call(selector: &Vec<char>, at: usize, mark: &Vec<char>) -> (r: Option<
    (Vec<char>, Vec<char>),
>)
    requires
        mark@ == has_text_mark() || mark@ == contains_mark(),
    ensures
        match r {
            Some(p) => call_at(selector@, at as int, mark@) == Some((p.0@, p.1@)),
            None => call_at(selector@, at as int, mark@) is None,
        },
{
    let n = selector.len();
    if !crate::text::matches_at(selector, mark, at) {
        return None;
    }
    let from: usize = at + mark.len();
    if n == 0 || from >= n - 1 || selector[n - 1] != ')' {
        return None;
    }
    let argument = slice(selector, from, n - 1);
    if !is_balanced(&argument) {
        return None;
    }
    if find(&argument, &has_text_marker()).is_some() || find(&argument, &contains_marker()).is_some() {
        return None;
    }
    Some((slice(selector, 0, at), argument))
}

/// Reads a rule that takes part into its parts.
pub fn parse(line: &Vec<char>) -> (r: Option<ParsedCall>)
    ensures
        match r {
            Some(c) => parsed(line@) == Some(c@),
            None => parsed(line@) is None,
        },
{
    let hashes: Vec<char> = vec!['#', '#'];
    proof {
        lemma_index_from(line@, hashes@, 0);
    }
    let cut = match find(line, &hashes) {
        Some(cut) => cut,
        None => {
            return None;
        },
    };
    let n: usize = line.len();
    let domains = slice(line, 0, cut);
    let selector = slice(line, cut + 2, n);
    let mut k: usize = 0;
    while k < domains.len()
        invariant
            k <= domains.len(),
            index_of(line@, seq!['#', '#']) == Some(cut as int),
            domains@ == line@.subrange(0, cut as int),
            forall|j: int| 0 <= j < k ==> !not_in_domains(#[trigger] domains@[j]),
        decreases domains.len() - k,
    {
        let c = domains[k];
        if c == '/' || c == '|' || c == '@' || c == '"' || c == '!' || c == '#' {
            return None;
        }
        k += 1;
    }
    let first = has_text_marker();
    let second = contains_marker();
    let h = find(&selector, &first);
    let c = find(&selector, &second);
    match (h, c) {
        (Some(at), None) => match read_call(&selector, at, &first) {
            Some(parts) => Some(
                ParsedCall { domains, base: parts.0, operator: first, argument: parts.1 },
            ),
            None => None,
        },
        (None, Some(at)) => match read_call(&selector, at, &second) {
            Some(parts) => Some(
                ParsedCall { domains, base: parts.0, operator: second, argument: parts.1 },
            ),
            None => None,
        },
        _ => None,
    }
}

fn is_special(c: char) -> (b: bool)
    ensures
        b == special(c),
{
    c == '\\' || c == '.' || c == '+' || c == '*' || c == '?' || c == '(' || c == ')' || c == '['
        || c == ']' || c == '{' || c == '}' || c == '|' || c == '^' || c == '$'
}

/// What an argument adds to the merged regular expression.
pub fn fragment_of(argument: &Vec<char>) -> (r: Vec<char>)
    ensures
        r@ == fragment(argument@),
{
    let n = argument.len();
    if n >= 2 && argument[0] == '/' && argument[n - 1] == '/' {
        return slice(argument, 1, n - 1);
    }
    let mut r: Vec<char> = Vec::new();
    let mut i: usize = 0;
    while i < n
        invariant
            i <= n,
            n == argument.len(),
            r@ == escaped(argument@.take(i as int)),
        decreases n - i,
    {
        proof {
            assert(argument@.take(i + 1).drop_last() =~= argument@.take(i as int));
        }
        let c = argument[i];
        if is_special(c) {
            r.push('\\');
        }
        r.push(c);
        i += 1;
    }
    assert(argument@.take(n as int) =~= argument@);
    r
}

fn in_group(a: &ParsedCall, b: &ParsedCall) -> (r: bool)
    ensures
        r == same_group(a@, b@),
{
    same(&a.domains, &b.domains) && same(&a.base, &b.base) && same(&a.operator, &b.operator)
}

fn fragments_of(calls: &Vec<Option<ParsedCall>>, upto: usize, of: &ParsedCall, Ghost(lines): Ghost<
    Seq<Seq<char>>,
>) -> (r: Vec<Vec<char>>)
    requires
        upto <= calls.len(),
        calls.len() == lines.len(),
        forall|j: int|
            0 <= j < calls.len() ==> match #[trigger] calls@[j] {
                Some(c) => parsed(lines[j]) == Some(c@),
                None => parsed(lines[j]) is None,
            },
    ensures
        texts(r@) == group_fragments(lines.take(upto as int), of@),
{
    let mut r: Vec<Vec<char>> = Vec::new();
    let mut j: usize = 0;
    while j < upto
        invariant
            j <= upto <= calls.len(),
            calls.len() == lines.len(),
            forall|k: int|
                0 <= k < calls.len() ==> match #[trigger] calls@[k] {
                    Some(c) => parsed(lines[k]) == Some(c@),
                    None => parsed(lines[k]) is None,
                },
            texts(r@) == group_fragments(lines.take(j as int), of@),
        decreases upto - j,
    {
        proof {
            assert(lines.take(j + 1).drop_last() =~= lines.take(j as int));
        }
        match &calls[j] {
            Some(c) => {
                if in_group(c, of) {
                    r.push(fragment_of(&c.argument));
                }
            },
            None => {},
        }
        j += 1;
    }
    r
}

/// Merges each group of two or more rules into one rule.
pub fn merge(lines: &Vec<Vec<char>>) -> (out: Vec<Vec<char>>)
    ensures
        texts(out@) == has_text_merged(texts(lines@)),
{
    let mut merged: Vec<Vec<char>> = Vec::new();
    merge_noting(lines, &mut merged)
}

/// Merges each group of two or more rules into one rule, and notes each
/// merged rule that it makes.
pub fn merge_noting(lines: &Vec<Vec<char>>, merged: &mut Vec<Vec<char>>) -> (out: Vec<Vec<char>>)
    ensures
        texts(out@) == has_text_merged(texts(lines@)),
        texts(final(merged)@) == texts(old(merged)@) + has_text_merges(texts(lines@)),
{
    let ghost all = texts(lines@);
    let ghost noted = texts(merged@);
    let mut calls: Vec<Option<ParsedCall>> = Vec::new();
    let mut i: usize = 0;
    while i < lines.len()
        invariant
            i <= lines.len(),
            all == texts(lines@),
            calls.len() == i,
            forall|j: int|
                0 <= j < i ==> match #[trigger] calls@[j] {
                    Some(c) => parsed(all[j]) == Some(c@),
                    None => parsed(all[j]) is None,
                },
        decreases lines.len() - i,
    {
        calls.push(parse(&lines[i]));
        i += 1;
    }
    let mut out: Vec<Vec<char>> = Vec::new();
    let mut i: usize = 0;
    while i < lines.len()
        invariant
            i <= lines.len(),
            all == texts(lines@),
            calls.len() == lines.len(),
            texts(merged@) == noted + merges_upto(all, i as int),
            forall|j: int|
                0 <= j < calls.len() ==> match #[trigger] calls@[j] {
                    Some(c) => parsed(all[j]) == Some(c@),
                    None => parsed(all[j]) is None,
                },
            texts(out@) == merged_upto(all, i as int),
        decreases lines.len() - i,
    {
        let ghost merged_before = merged@;
        match &calls[i] {
            None => {
                out.push(copy(&lines[i]));
            },
            Some(c) => {
                let earlier = fragments_of(&calls, i, c, Ghost(all));
                if earlier.len() == 0 {
                    let fragments = fragments_of(&calls, calls.len(), c, Ghost(all));
                    assert(all.take(all.len() as int) =~= all);
                    if fragments.len() <= 1 {
                        out.push(copy(&lines[i]));
                    } else {
                        let mut rule = copy(&c.domains);
                        rule.push('#');
                        rule.push('#');
                        append(&mut rule, &c.base);
                        append(&mut rule, &c.operator);
                        rule.push('/');
                        let bar: Vec<char> = vec!['|'];
                        assert(bar@ =~= seq!['|']);
                        append(&mut rule, &join(&fragments, &bar));
                        rule.push('/');
                        rule.push(')');
                        assert(rule@ =~= merged_rule(c@, texts(fragments@)));
                        merged.push(copy(&rule));
                        assert(texts(merged@) =~= texts(merged_before) + seq![rule@]);
                        out.push(rule);
                    }
                }
            },
        }
        i += 1;
    }
    out
}

/// Merges the rules that differ only in the text their last `:has-text(..)`
/// or `:-abp-contains(..)` looks for.
pub fn merge_has_text(lines: Vec<String>) -> (out: Vec<String>)
    ensures
        strings(out@) == has_text_merged(strings(lines@)),
{
    strings_of(&merge(&texts_of(&lines)))
}

} // verus!
