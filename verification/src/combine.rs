//! Merging of neighbouring rules that differ only in the domains they are
//! limited to.

use crate::pattern::{captures, group, group_text, regex_captures, regex_replace, replace};
use crate::text::{
    append, chars_of, copy, join, joined, replace_all, replaced_all, same, split, split_on,
    string_of, strings, strings_of, texts, texts_of,
};
use crate::domains::{sort_tokens, sorted_tokens};
use crate::unique::{first_occurrences, unique};
use vstd::prelude::*;

verus! {

/// The domain option of a network rule, with the domains as its group.
pub const FILTER_DOMAIN_PATTERN: &'static str = r"\$(?:[^,]*,)?domain=([^,]+)";

/// The domain list of a cosmetic rule, as its group, and the separator.
pub const ELEMENT_DOMAIN_PATTERN: &'static str = r#"^([^/|@"!]*?)#[@?$%]?#"#;

/// A domain that excludes: it begins with `~`.
pub open spec fn excludes(token: Seq<char>) -> bool {
    token.len() > 0 && token[0] == '~'
}

/// Every domain of the list includes: none begins with `~`.
pub open spec fn only_inclusions(tokens: Seq<Seq<char>>) -> bool {
    forall|i: int| 0 <= i < tokens.len() ==> !excludes(#[trigger] tokens[i])
}

/// Every domain of the list excludes: each begins with `~`.
pub open spec fn only_exclusions(tokens: Seq<Seq<char>>) -> bool {
    forall|i: int| 0 <= i < tokens.len() ==> excludes(#[trigger] tokens[i])
}

/// Two domain lists point the same way when both only include or both only
/// exclude.
pub open spec fn same_direction(a: Seq<Seq<char>>, b: Seq<Seq<char>>) -> bool {
    (only_inclusions(a) && only_inclusions(b)) || (only_exclusions(a) && only_exclusions(b))
}

/// The domains of two lists as one list: each once, sorted, with the
/// separator between them.
pub open spec fn united_domains(a: Seq<char>, b: Seq<char>, separator: char) -> Seq<char> {
    joined(
        sorted_tokens(first_occurrences(split_on(a, separator) + split_on(b, separator))),
        seq![separator],
    )
}

/// What the domain pattern found in a rule: the whole match and the
/// domains in it.
pub struct DomainPart {
    pub whole: Seq<char>,
    pub domains: Seq<char>,
}

/// The part of a rule that the domain pattern matches, if it matches.
pub open spec fn domain_part(rule: Seq<char>, pattern: Seq<char>) -> Option<DomainPart> {
    match regex_captures(pattern, rule) {
        Some(groups) => Some(
            DomainPart { whole: group_text(groups, 0), domains: group_text(groups, 1) },
        ),
        None => None,
    }
}

/// Two rules can be merged when both name domains, the first rule's match
/// with the second rule's domains in place of its own is the second rule's
/// match, and the two lists of domains point the same way. (That the rules
/// are the same without their matches is asked for besides.)
pub open spec fn mergeable(a: DomainPart, b: DomainPart, separator: char) -> bool {
    &&& a.domains.len() > 0
    &&& b.domains.len() > 0
    &&& replaced_all(a.whole, a.domains, b.domains) == b.whole
    &&& same_direction(split_on(a.domains, separator), split_on(b.domains, separator))
}

/// The template that puts the united domains of two rules where the first
/// rule's match was: the match with the united domains in place of its own,
/// and `$$` for each `$`.
pub open spec fn merge_template(a: DomainPart, b: DomainPart, separator: char) -> Seq<char> {
    replaced_all(
        replaced_all(a.whole, a.domains, united_domains(a.domains, b.domains, separator)),
        "$"@,
        "$$"@,
    )
}

/// The rule that stands for both `a` and `b`, if the two differ only in
/// their domains: `a` with the united domains.
pub open spec fn merged_pair(a: Seq<char>, b: Seq<char>, pattern: Seq<char>, separator: char)
    -> Option<Seq<char>> {
    match (domain_part(a, pattern), domain_part(b, pattern)) {
        (Some(pa), Some(pb)) => if mergeable(pa, pb, separator) && regex_replace(
            pattern,
            a,
            Seq::<char>::empty(),
        ) == regex_replace(pattern, b, Seq::<char>::empty()) {
            Some(regex_replace(pattern, a, merge_template(pa, pb, separator)))
        } else {
            None
        },
        _ => None,
    }
}

/// A rule that only includes is never merged with one that only excludes.
pub proof fn lemma_directions_never_mix(
    a: Seq<char>,
    b: Seq<char>,
    pattern: Seq<char>,
    separator: char,
)
    requires
        domain_part(a, pattern) is Some,
        domain_part(b, pattern) is Some,
        only_inclusions(split_on(domain_part(a, pattern)->0.domains, separator)),
        only_exclusions(split_on(domain_part(b, pattern)->0.domains, separator)),
    ensures
        merged_pair(a, b, pattern, separator) is None,
        merged_pair(b, a, pattern, separator) is None,
{
    crate::text::lemma_split_nonempty(domain_part(a, pattern)->0.domains, separator);
    crate::text::lemma_split_nonempty(domain_part(b, pattern)->0.domains, separator);
}

/// What a pass over the rules has written out so far, and the rule it
/// holds back to compare with the next one.
pub open spec fn combine_fold(rules: Seq<Seq<char>>, pattern: Seq<char>, separator: char) -> (
    Seq<Seq<char>>,
    Seq<char>,
)
    recommends
        rules.len() > 0,
    decreases rules.len(),
{
    if rules.len() <= 1 {
        (Seq::<Seq<char>>::empty(), rules[0])
    } else {
        let before = combine_fold(rules.drop_last(), pattern, separator);
        match merged_pair(before.1, rules.last(), pattern, separator) {
            Some(m) => (before.0, m),
            None => (before.0.push(before.1), rules.last()),
        }
    }
}

/// The rules after one pass from left to right in which each rule is merged
/// with the next where the two differ only in their domains. The merged
/// rule takes the place of the second and is compared with the one after
/// it, so that a run of such rules ends as one rule.
pub open spec fn combined(rules: Seq<Seq<char>>, pattern: Seq<char>, separator: char) -> Seq<
    Seq<char>,
> {
    if rules.len() == 0 {
        rules
    } else {
        let all = combine_fold(rules, pattern, separator);
        all.0.push(all.1)
    }
}

/// The merged rules that a pass over the rules makes, in order: one for
/// each merge, also where the merged rule is merged again.
pub open spec fn merges(rules: Seq<Seq<char>>, pattern: Seq<char>, separator: char) -> Seq<
    Seq<char>,
>
    decreases rules.len(),
{
    if rules.len() <= 1 {
        Seq::<Seq<char>>::empty()
    } else {
        let head = merges(rules.drop_last(), pattern, separator);
        match merged_pair(
            combine_fold(rules.drop_last(), pattern, separator).1,
            rules.last(),
            pattern,
            separator,
        ) {
            Some(m) => head.push(m),
            None => head,
        }
    }
}

fn all_begin_alike(tokens: &Vec<Vec<char>>, excluding: bool) -> (b: bool)
    ensures
        b == (if excluding {
            only_exclusions(texts(tokens@))
        } else {
            only_inclusions(texts(tokens@))
        }),
{
    let mut i: usize = 0;
    while i < tokens.len()
        invariant
            i <= tokens.len(),
            forall|k: int|
                0 <= k < i ==> excludes(#[trigger] texts(tokens@)[k]) == excluding,
        decreases tokens.len() - i,
    {
        let t = &tokens[i];
        let tilde = t.len() > 0 && t[0] == '~';
        assert(tilde == excludes(texts(tokens@)[i as int]));
        if tilde != excluding {
            return false;
        }
        i += 1;
    }
    true
}

/// Merges two rules that differ only in their domains, given what the
/// domain pattern captured in each and what is left of each without its
/// match; `None` when the two cannot be merged.
pub fn merge_pair(
    a: &str,
    a_groups: &Vec<Option<String>>,
    a_rest: &str,
    b_groups: &Vec<Option<String>>,
    b_rest: &str,
    pattern: &str,
    separator: char,
) -> (r: Option<String>)
    ensures
        ({
            let pa = DomainPart {
                whole: group_text(a_groups.deep_view(), 0),
                domains: group_text(a_groups.deep_view(), 1),
            };
            let pb = DomainPart {
                whole: group_text(b_groups.deep_view(), 0),
                domains: group_text(b_groups.deep_view(), 1),
            };
            match r {
                Some(m) => mergeable(pa, pb, separator) && a_rest@ == b_rest@ && m@
                    == regex_replace(pattern@, a@, merge_template(pa, pb, separator)),
                None => !(mergeable(pa, pb, separator) && a_rest@ == b_rest@),
            }
        }),
{
    let a_domains = group(a_groups, 1);
    let b_domains = group(b_groups, 1);
    if a_domains.len() == 0 || b_domains.len() == 0 {
        return None;
    }
    let a_whole = group(a_groups, 0);
    let b_whole = group(b_groups, 0);
    if !same(&replace_all(&a_whole, &a_domains, &b_domains), &b_whole) {
        return None;
    }
    if !same(&chars_of(a_rest), &chars_of(b_rest)) {
        return None;
    }
    let a_tokens = split(&a_domains, separator);
    let b_tokens = split(&b_domains, separator);
    let alike = (all_begin_alike(&a_tokens, false) && all_begin_alike(&b_tokens, false)) || (
    all_begin_alike(&a_tokens, true) && all_begin_alike(&b_tokens, true));
    if !alike {
        return None;
    }
    let mut both = a_tokens;
    let mut more = b_tokens;
    let ghost first = texts(both@);
    let ghost second = texts(more@);
    both.append(&mut more);
    assert(texts(both@) =~= first + second);
    let sep: Vec<char> = vec![separator];
    assert(sep@ =~= seq![separator]);
    let united = join(&sort_tokens(&unique(&both)), &sep);
    let template = replace_all(
        &replace_all(&a_whole, &a_domains, &united),
        &chars_of("$"),
        &chars_of("$$"),
    );
    Some(replace(pattern, a, string_of(&template).as_str()))
}

fn try_merge(a: &Vec<char>, b: &Vec<char>, pattern: &str, separator: char) -> (r: Option<
    Vec<char>,
>)
    ensures
        match r {
            Some(m) => merged_pair(a@, b@, pattern@, separator) == Some(m@),
            None => merged_pair(a@, b@, pattern@, separator) is None,
        },
{
    let a_text = string_of(a);
    let b_text = string_of(b);
    let a_found = captures(pattern, a_text.as_str());
    let b_found = captures(pattern, b_text.as_str());
    match (a_found, b_found) {
        (Some(ga), Some(gb)) => {
            let a_rest = replace(pattern, a_text.as_str(), "");
            let b_rest = replace(pattern, b_text.as_str(), "");
            proof {
                reveal_strlit("");
                assert(""@ =~= Seq::<char>::empty());
            }
            match merge_pair(
                a_text.as_str(),
                &ga,
                a_rest.as_str(),
                &gb,
                b_rest.as_str(),
                pattern,
                separator,
            ) {
                Some(m) => Some(chars_of(m.as_str())),
                None => None,
            }
        },
        _ => None,
    }
}

/// Merges each rule with the next where the two differ only in the domains
/// they are limited to.
pub fn combine(rules: &Vec<Vec<char>>, pattern: &str, separator: char) -> (out: Vec<Vec<char>>)
    ensures
        texts(out@) == combined(texts(rules@), pattern@, separator),
{
    let mut merged: Vec<Vec<char>> = Vec::new();
    combine_noting(rules, pattern, separator, &mut merged)
}

/// Merges each rule with the next where the two differ only in the domains
/// they are limited to, and notes each merged rule that it makes.
pub fn combine_noting(
    rules: &Vec<Vec<char>>,
    pattern: &str,
    separator: char,
    merged: &mut Vec<Vec<char>>,
) -> (out: Vec<Vec<char>>)
    ensures
        texts(out@) == combined(texts(rules@), pattern@, separator),
        texts(final(merged)@) == texts(old(merged)@) + merges(texts(rules@), pattern@, separator),
{
    let mut out: Vec<Vec<char>> = Vec::new();
    let ghost noted = texts(merged@);
    if rules.len() == 0 {
        return out;
    }
    let ghost all = texts(rules@);
    let mut carry = copy(&rules[0]);
    let mut i: usize = 1;
    while i < rules.len()
        invariant
            1 <= i <= rules.len(),
            all == texts(rules@),
            (texts(out@), carry@) == combine_fold(all.take(i as int), pattern@, separator),
            texts(merged@) == noted + merges(all.take(i as int), pattern@, separator),
        decreases rules.len() - i,
    {
        let ghost merged_before = merged@;
        proof {
            assert(all.take(i + 1).drop_last() =~= all.take(i as int));
        }
        match try_merge(&carry, &rules[i], pattern, separator) {
            Some(m) => {
                merged.push(copy(&m));
                assert(texts(merged@) =~= texts(merged_before).push(m@));
                carry = m;
            },
            None => {
                out.push(carry);
                carry = copy(&rules[i]);
            },
        }
        i += 1;
    }
    assert(all.take(all.len() as int) =~= all);
    out.push(carry);
    out
}

/// Merges each rule with the next where the two differ only in the domains
/// they are limited to. `domain_pattern` finds the domains of a rule, and
/// `separator` stands between two of them.
pub fn combine_filters(uncombined: Vec<String>, domain_pattern: &str, separator: char) -> (out:
    Vec<String>)
    ensures
        strings(out@) == combined(strings(uncombined@), domain_pattern@, separator),
{
    strings_of(&combine(&texts_of(&uncombined), domain_pattern, separator))
}

} // verus!
