//! Canonical form of a cosmetic rule: its domains in lower case, each once,
//! sorted, and its selector with its spacing, needless `*` and
//! pseudo-classes put in order. A selector in extended syntax is never
//! rewritten.

use crate::domains::{sort_tokens, sorted_tokens};
use crate::pattern::{
    captures, captures_all, group, group_present, group_text, has_group, is_match,
    regex_captures, regex_captures_all, regex_is_match,
};
use crate::text::{
    append, byte_len, byte_len_below, chars_of, concat, contains, contains_char, contains_str,
    copy, is_prefix, join, joined, lowercase, occurs, replace_first, replaced_first, same_str,
    slice, split, split_on, starts_with_str, string_of, strings, strip_leading, texts,
    to_lowercase, without_leading,
};
use crate::unique::{
    drop_repeats, lemma_without_repeats, lemma_without_repeats_fixed, without_repeats,
};
use vstd::prelude::*;

verus! {

/// A quoted string at the first place in a selector where one begins, with
/// the character before it; or a `*`.
pub const ATTRIBUTE_VALUE_PATTERN: &'static str =
    r#"^([^'"\\]|\\.)*("(?:[^"\\]|\\.)*"|'(?:[^'\\]|\\.)*')|\*"#;

/// A combinator between two parts of a selector, with the white space
/// around it.
pub const TREE_SELECTOR: &'static str = r"(\\.|[^+>~ \t])\s*([+>~ \t])\s*(\D)";

/// A `*` that stands for "any tag" before an id, a class, an attribute or a
/// pseudo-class, with what the pseudo-class begins with where it is one of
/// those that need the `*`.
pub const REMOVAL_PATTERN: &'static str =
    r"([>+~,@\s])(\*)([#.\[:])(not\(|has\(|-abp-contains|-abp-has)?";

/// A pseudo-class with a capital letter in its name.
pub const PSEUDO_PATTERN: &'static str = r"(:[a-zA-Z\-]*[A-Z][a-zA-Z\-]*)";

/// A Unicode escape followed by letters with a capital among them.
pub const UNICODE_SELECTOR: &'static str = r"\\[0-9a-fA-F]{1,6}\s[a-zA-Z]*[A-Z]";

/// A domain of a cosmetic rule is valid when, without the `~` in front, it
/// is `*`, or has no dot and at least two bytes, or has a dot and at least
/// four bytes.
pub open spec fn valid_domain(token: Seq<char>) -> bool {
    let name = without_leading(token, '~');
    name == seq!['*'] || (!name.contains('.') && byte_len(name) >= 2) || (name.contains('.')
        && byte_len(name) >= 4)
}

/// The valid domains of `tokens`, in order.
pub open spec fn valid_domains(tokens: Seq<Seq<char>>) -> Seq<Seq<char>>
    decreases tokens.len(),
{
    if tokens.len() == 0 {
        tokens
    } else {
        let head = valid_domains(tokens.drop_last());
        if valid_domain(tokens.last()) {
            head.push(tokens.last())
        } else {
            head
        }
    }
}

/// The domains of `tokens` that are not valid, in order.
pub open spec fn invalid_domains(tokens: Seq<Seq<char>>) -> Seq<Seq<char>>
    decreases tokens.len(),
{
    if tokens.len() == 0 {
        tokens
    } else {
        let head = invalid_domains(tokens.drop_last());
        if valid_domain(tokens.last()) {
            head
        } else {
            head.push(tokens.last())
        }
    }
}

/// The canonical form of a cosmetic rule's domain list, which is in lower
/// case already: a list without a comma stays as it is; of any other, the
/// valid domains are sorted and written each once, with commas between.
pub open spec fn tidied_domains(domains: Seq<char>) -> Seq<char> {
    if domains.contains(',') {
        joined(without_repeats(sorted_tokens(valid_domains(split_on(domains, ',')))), ","@)
    } else {
        domains
    }
}

/// The valid domains of a list are valid and are domains of the list; a
/// list of valid domains stays as it is.
pub proof fn lemma_valid_domains(tokens: Seq<Seq<char>>)
    ensures
        forall|i: int|
            0 <= i < valid_domains(tokens).len() ==> valid_domain(
                #[trigger] valid_domains(tokens)[i],
            ) && tokens.contains(valid_domains(tokens)[i]),
        (forall|i: int| 0 <= i < tokens.len() ==> valid_domain(#[trigger] tokens[i]))
            ==> valid_domains(tokens) == tokens,
    decreases tokens.len(),
{
    if tokens.len() > 0 {
        let init = tokens.drop_last();
        lemma_valid_domains(init);
    }
}

/// The domains of a tidied list, before they are joined: valid, in order,
/// each once, none with a comma in it; tidying them again changes nothing.
proof fn lemma_tidied_tokens(tokens: Seq<Seq<char>>)
    requires
        forall|i: int| 0 <= i < tokens.len() ==> !(#[trigger] tokens[i]).contains(','),
    ensures
        ({
            let t = without_repeats(sorted_tokens(valid_domains(tokens)));
            &&& forall|i: int| 0 <= i < t.len() ==> !(#[trigger] t[i]).contains(',')
            &&& without_repeats(sorted_tokens(valid_domains(t))) == t
        }),
{
    broadcast use vstd::seq_lib::group_to_multiset_ensures;

    let v = valid_domains(tokens);
    let s = sorted_tokens(v);
    let t = without_repeats(s);
    lemma_valid_domains(tokens);
    crate::domains::lemma_sorted_tokens(v);
    lemma_without_repeats(s);
    // every domain of t is a domain of s, of v and of the list
    assert forall|i: int| 0 <= i < t.len() implies valid_domain(#[trigger] t[i]) && !t[i].contains(
        ',',
    ) by {
        assert(s.to_multiset().count(t[i]) > 0);
    }
    lemma_valid_domains(t);
    lemma_in_order_without_repeats(s);
    crate::domains::lemma_sorted_tokens_fixed(t);
    lemma_without_repeats_fixed(t);
}

/// Removing repeated neighbours from domains that are in order leaves them
/// in order.
proof fn lemma_in_order_without_repeats(s: Seq<Seq<char>>)
    requires
        forall|i: int, j: int|
            0 <= i < j < s.len() ==> crate::domains::token_le(#[trigger] s[i], #[trigger] s[j]),
    ensures
        forall|i: int, j: int|
            0 <= i < j < without_repeats(s).len() ==> crate::domains::token_le(
                #[trigger] without_repeats(s)[i],
                #[trigger] without_repeats(s)[j],
            ),
    decreases s.len(),
{
    if s.len() > 1 {
        let init = s.drop_last();
        lemma_in_order_without_repeats(init);
        lemma_without_repeats(init);
    }
}

/// Tidying a domain list a second time changes nothing.
pub proof fn lemma_tidied_domains_twice(domains: Seq<char>)
    ensures
        tidied_domains(tidied_domains(domains)) == tidied_domains(domains),
{
    reveal_strlit(",");
    assert(","@ =~= seq![',']);
    if domains.contains(',') {
        let tokens = split_on(domains, ',');
        crate::text::lemma_split_pieces(domains, ',');
        lemma_tidied_tokens(tokens);
        let t = without_repeats(sorted_tokens(valid_domains(tokens)));
        crate::text::lemma_joined_separator(t, ',');
        if t.len() >= 2 {
            crate::text::lemma_split_joined(t, ',');
        }
    }
}

/// The warning about the domains that were dropped from a cosmetic rule.
pub open spec fn invalid_domains_warning(
    invalid: Seq<Seq<char>>,
    domains: Seq<char>,
    separator: Seq<char>,
    selector: Seq<char>,
) -> Seq<char> {
    "Removed invalid domain(s) from cosmetic rule: "@ + joined(invalid, ", "@) + " | Rule: "@
        + domains + separator + selector
}

/// The warnings that tidying the domain list of a cosmetic rule gives: one,
/// that names the dropped domains and the rule, when a domain was dropped.
pub open spec fn domain_warnings(domains: Seq<char>, separator: Seq<char>, selector: Seq<char>)
    -> Seq<Seq<char>> {
    if domains.contains(',') && invalid_domains(split_on(domains, ',')).len() > 0 {
        seq![
            invalid_domains_warning(
                invalid_domains(split_on(domains, ',')),
                domains,
                separator,
                selector,
            ),
        ]
    } else {
        Seq::<Seq<char>>::empty()
    }
}

/// A selector in extended syntax, which is never rewritten: a scriptlet, an
/// HTML filter, a procedural operator or an action, or any selector behind
/// one of the four separators of the extensions.
pub open spec fn is_extended(selector: Seq<char>, separator: Seq<char>) -> bool {
    is_prefix(selector, "+js("@)
        || is_prefix(selector, "^"@)
        || is_prefix(selector, "//scriptlet("@)
        || occurs(selector, ":style("@)
        || occurs(selector, ":has-text("@)
        || occurs(selector, ":has("@)
        || occurs(selector, ":remove("@)
        || occurs(selector, ":remove-attr("@)
        || occurs(selector, ":remove-class("@)
        || occurs(selector, ":matches-path("@)
        || occurs(selector, ":matches-css("@)
        || occurs(selector, ":matches-media("@)
        || occurs(selector, ":matches-prop("@)
        || occurs(selector, ":upward("@)
        || occurs(selector, ":xpath("@)
        || occurs(selector, ":watch-attr("@)
        || occurs(selector, ":min-text-length("@)
        || occurs(selector, ":-abp-has("@)
        || occurs(selector, ":-abp-contains("@)
        || occurs(selector, ":-abp-properties("@)
        || occurs(selector, ":others("@)
        || occurs(selector, " {"@)
        || separator == "#$#"@
        || separator == "#@$#"@
        || separator == "#%#"@
        || separator == "#@%#"@
}

/// What is left of a selector after its quoted strings are taken out, and
/// the strings that were taken out, one after the other. A string is taken
/// out together with the character before it, which is put back.
pub open spec fn strings_apart(stripped: Seq<char>, quoted: Seq<char>) -> (Seq<char>, Seq<char>)
    decreases stripped.len(),
{
    match regex_captures(ATTRIBUTE_VALUE_PATTERN@, stripped) {
        Some(groups) => if group_present(groups, 2) {
            let before = group_text(groups, 1);
            let string = group_text(groups, 2);
            let next = replaced_first(stripped, before + string, before);
            if next.len() < stripped.len() {
                strings_apart(next, quoted + string)
            } else {
                (next, quoted + string)
            }
        } else {
            (stripped, quoted)
        },
        None => (stripped, quoted),
    }
}

/// A rewrite of the text `found` applies when `found` occurs outside the
/// quoted strings of the selector and not inside them.
pub open spec fn applies(found: Seq<char>, stripped: Seq<char>, quoted: Seq<char>) -> bool {
    !occurs(quoted, found) && occurs(stripped, found)
}

/// What stands between the two sides of a combinator: the combinator with
/// one blank on each side, none on the left after `(`; a run of blanks
/// becomes one blank.
pub open spec fn combinator_form(left: Seq<char>, combinator: Seq<char>) -> Seq<char> {
    let form = if left == "("@ {
        combinator + " "@
    } else {
        " "@ + combinator + " "@
    };
    if form == "   "@ {
        " "@
    } else {
        form
    }
}

/// The selector after the spacing around one combinator is put in order.
/// Nothing is done where the match lies in a quoted string, where its left
/// side is a backslash or an escaped quote, or where the match is the `~=`
/// of an attribute selector.
pub open spec fn tree_step(
    selector: Seq<char>,
    stripped: Seq<char>,
    quoted: Seq<char>,
    groups: Seq<Option<Seq<char>>>,
) -> Seq<char> {
    let found = group_text(groups, 0);
    let left = group_text(groups, 1);
    if !applies(found, stripped, quoted) || left == "\\"@ || left == "\\'"@ || left == "\\\""@
        || (group_text(groups, 2) == "~"@ && group_text(groups, 3) == "="@) {
        selector
    } else {
        replaced_first(
            selector,
            found,
            left + combinator_form(left, group_text(groups, 2)) + group_text(groups, 3),
        )
    }
}

/// The selector after one needless `*` is removed. Nothing is done where
/// the `*` lies in a quoted string, or where it stands before `:not(`,
/// `:has(`, `:-abp-contains` or `:-abp-has`.
pub open spec fn removal_step(
    selector: Seq<char>,
    stripped: Seq<char>,
    quoted: Seq<char>,
    groups: Seq<Option<Seq<char>>>,
) -> Seq<char> {
    let star = group_text(groups, 2);
    let before = group_text(groups, 1);
    let after = group_text(groups, 3);
    if !group_present(groups, 2) || !applies(star, stripped, quoted) || (after == ":"@
        && group_present(groups, 4)) {
        selector
    } else {
        replaced_first(selector, before + star + after, before + after)
    }
}

/// The selector after the name of one pseudo-class is put in lower case.
/// Nothing is done where the name lies in a quoted string.
pub open spec fn pseudo_step(
    selector: Seq<char>,
    stripped: Seq<char>,
    quoted: Seq<char>,
    groups: Seq<Option<Seq<char>>>,
) -> Seq<char> {
    let name = group_text(groups, 1);
    if !applies(name, stripped, quoted) {
        selector
    } else {
        replaced_first(selector, name, lowercase(name))
    }
}

/// The selector after `tree_step` for each match, in order.
pub open spec fn tree_pass(
    selector: Seq<char>,
    stripped: Seq<char>,
    quoted: Seq<char>,
    matches: Seq<Seq<Option<Seq<char>>>>,
) -> Seq<char>
    decreases matches.len(),
{
    if matches.len() == 0 {
        selector
    } else {
        tree_step(
            tree_pass(selector, stripped, quoted, matches.drop_last()),
            stripped,
            quoted,
            matches.last(),
        )
    }
}

/// The selector after `removal_step` for each match, in order.
pub open spec fn removal_pass(
    selector: Seq<char>,
    stripped: Seq<char>,
    quoted: Seq<char>,
    matches: Seq<Seq<Option<Seq<char>>>>,
) -> Seq<char>
    decreases matches.len(),
{
    if matches.len() == 0 {
        selector
    } else {
        removal_step(
            removal_pass(selector, stripped, quoted, matches.drop_last()),
            stripped,
            quoted,
            matches.last(),
        )
    }
}

/// The selector after `pseudo_step` for each match, in order.
pub open spec fn pseudo_pass(
    selector: Seq<char>,
    stripped: Seq<char>,
    quoted: Seq<char>,
    matches: Seq<Seq<Option<Seq<char>>>>,
) -> Seq<char>
    decreases matches.len(),
{
    if matches.len() == 0 {
        selector
    } else {
        pseudo_step(
            pseudo_pass(selector, stripped, quoted, matches.drop_last()),
            stripped,
            quoted,
            matches.last(),
        )
    }
}

/// A selector between two `@`, without them; the empty text for a text of
/// fewer than two characters.
pub open spec fn unwrapped(s: Seq<char>) -> Seq<char> {
    if s.len() >= 2 {
        s.subrange(1, s.len() - 1)
    } else {
        Seq::<char>::empty()
    }
}

/// The canonical form of a selector in standard syntax. The selector is put
/// between two `@`; its quoted strings are set apart, and no step rewrites
/// what lies in one. Then the spacing around each combinator is put in
/// order, each needless `*` is removed, and the names of pseudo-classes are
/// put in lower case, unless the selector holds a Unicode escape followed
/// by a capital letter. Each pass works on the matches found in the selector
/// as the pass before left it.
pub open spec fn canonical_selector(selector: Seq<char>) -> Seq<char> {
    let wrapped = "@"@ + selector + "@"@;
    let apart = strings_apart(wrapped, Seq::<char>::empty());
    let stripped = apart.0;
    let quoted = apart.1;
    let treed = tree_pass(wrapped, stripped, quoted, regex_captures_all(TREE_SELECTOR@, wrapped));
    let cleared = removal_pass(
        treed,
        stripped,
        quoted,
        regex_captures_all(REMOVAL_PATTERN@, treed),
    );
    let lowered = if regex_is_match(UNICODE_SELECTOR@, stripped) {
        cleared
    } else {
        pseudo_pass(cleared, stripped, quoted, regex_captures_all(PSEUDO_PATTERN@, cleared))
    };
    unwrapped(lowered)
}

/// The canonical form of a cosmetic rule with the given domain list,
/// separator and selector: the domain list in lower case and tidied, the
/// separator, and the selector, in canonical form unless it is in extended
/// syntax.
pub open spec fn tidied_element(domains: Seq<char>, separator: Seq<char>, selector: Seq<char>)
    -> Seq<char> {
    tidied_domains(lowercase(domains)) + separator + (if is_extended(selector, separator) {
        selector
    } else {
        canonical_selector(selector)
    })
}

/// A selector in extended syntax comes out as it went in: the tidied rule
/// is the tidied domain list, the separator and the selector itself.
pub proof fn lemma_extended_passthrough(
    domains: Seq<char>,
    separator: Seq<char>,
    selector: Seq<char>,
)
    requires
        is_extended(selector, separator),
    ensures
        tidied_element(domains, separator, selector) == tidied_domains(lowercase(domains))
            + separator + selector,
        crate::text::is_suffix(tidied_element(domains, separator, selector), selector),
{
    let r = tidied_element(domains, separator, selector);
    assert(r.subrange(r.len() - selector.len(), r.len() as int) =~= selector);
}

/// Whether a domain of a cosmetic rule is valid.
pub fn is_valid_domain(token: &Vec<char>) -> (b: bool)
    ensures
        b == valid_domain(token@),
{
    let name = strip_leading(token, '~');
    if name.len() == 1 && name[0] == '*' {
        assert(name@ =~= seq!['*']);
        return true;
    }
    if contains_char(&name, '.') {
        !byte_len_below(&name, 4)
    } else {
        !byte_len_below(&name, 2)
    }
}

/// Tidies the domain list of a cosmetic rule, which is in lower case
/// already; warns when it drops a domain.
pub fn tidy_domains(
    domains: &Vec<char>,
    separator: &Vec<char>,
    selector: &Vec<char>,
    warnings: &mut Vec<String>,
) -> (r: Vec<char>)
    ensures
        r@ == tidied_domains(domains@),
        strings(final(warnings)@) == strings(old(warnings)@) + domain_warnings(
            domains@,
            separator@,
            selector@,
        ),
{
    if !contains_char(domains, ',') {
        return copy(domains);
    }
    let tokens = split(domains, ',');
    let mut valid: Vec<Vec<char>> = Vec::new();
    let mut invalid: Vec<Vec<char>> = Vec::new();
    let ghost all = texts(tokens@);
    let mut i: usize = 0;
    while i < tokens.len()
        invariant
            i <= tokens.len(),
            all == texts(tokens@),
            texts(valid@) == valid_domains(all.take(i as int)),
            texts(invalid@) == invalid_domains(all.take(i as int)),
        decreases tokens.len() - i,
    {
        proof {
            assert(all.take(i + 1).drop_last() =~= all.take(i as int));
        }
        if is_valid_domain(&tokens[i]) {
            valid.push(copy(&tokens[i]));
        } else {
            invalid.push(copy(&tokens[i]));
        }
        i += 1;
    }
    assert(all.take(all.len() as int) =~= all);
    if invalid.len() > 0 {
        let mut m = chars_of("Removed invalid domain(s) from cosmetic rule: ");
        append(&mut m, &join(&invalid, &chars_of(", ")));
        append(&mut m, &chars_of(" | Rule: "));
        append(&mut m, domains);
        append(&mut m, separator);
        append(&mut m, selector);
        warnings.push(string_of(&m));
    }
    join(&drop_repeats(&sort_tokens(&valid)), &chars_of(","))
}

/// Whether a selector behind a separator is in extended syntax.
pub fn is_extended_selector(selector: &Vec<char>, separator: &Vec<char>) -> (b: bool)
    ensures
        b == is_extended(selector@, separator@),
{
    if starts_with_str(selector, "+js(")
        || starts_with_str(selector, "^")
        || starts_with_str(selector, "//scriptlet(") {
        return true;
    }
    if contains_str(selector, ":style(")
        || contains_str(selector, ":has-text(")
        || contains_str(selector, ":has(")
        || contains_str(selector, ":remove(")
        || contains_str(selector, ":remove-attr(")
        || contains_str(selector, ":remove-class(")
        || contains_str(selector, ":matches-path(") {
        return true;
    }
    if contains_str(selector, ":matches-css(")
        || contains_str(selector, ":matches-media(")
        || contains_str(selector, ":matches-prop(")
        || contains_str(selector, ":upward(")
        || contains_str(selector, ":xpath(")
        || contains_str(selector, ":watch-attr(")
        || contains_str(selector, ":min-text-length(") {
        return true;
    }
    if contains_str(selector, ":-abp-has(")
        || contains_str(selector, ":-abp-contains(")
        || contains_str(selector, ":-abp-properties(")
        || contains_str(selector, ":others(")
        || contains_str(selector, " {") {
        return true;
    }
    same_str(separator, "#$#")
        || same_str(separator, "#@$#")
        || same_str(separator, "#%#")
        || same_str(separator, "#@%#")
}

/// Sets the quoted strings of a selector apart.
pub fn set_strings_apart(wrapped: &Vec<char>) -> (r: (Vec<char>, Vec<char>))
    ensures
        (r.0@, r.1@) == strings_apart(wrapped@, Seq::<char>::empty()),
{
    let mut stripped = copy(wrapped);
    let mut quoted: Vec<char> = Vec::new();
    loop
        invariant
            strings_apart(stripped@, quoted@) == strings_apart(wrapped@, Seq::<char>::empty()),
        decreases stripped.len(),
    {
        let found = captures(ATTRIBUTE_VALUE_PATTERN, string_of(&stripped).as_str());
        match found {
            Some(groups) => {
                if !has_group(&groups, 2) {
                    return (stripped, quoted);
                }
                let before = group(&groups, 1);
                let string = group(&groups, 2);
                let next = replace_first(&stripped, &concat(&before, &string), &before);
                append(&mut quoted, &string);
                if next.len() >= stripped.len() {
                    return (next, quoted);
                }
                stripped = next;
            },
            None => {
                return (stripped, quoted);
            },
        }
    }
}

/// Puts the spacing around one combinator in order, given the groups of
/// its match.
pub fn apply_tree_step(
    selector: Vec<char>,
    stripped: &Vec<char>,
    quoted: &Vec<char>,
    groups: &Vec<Option<String>>,
) -> (r: Vec<char>)
    ensures
        r@ == tree_step(selector@, stripped@, quoted@, groups.deep_view()),
{
    let found = group(groups, 0);
    let left = group(groups, 1);
    if contains(quoted, &found) || !contains(stripped, &found) || same_str(&left, "\\")
        || same_str(&left, "\\'") || same_str(&left, "\\\"") {
        return selector;
    }
    let combinator = group(groups, 2);
    let right = group(groups, 3);
    if same_str(&combinator, "~") && same_str(&right, "=") {
        return selector;
    }
    let mut form: Vec<char> = Vec::new();
    if !same_str(&left, "(") {
        append(&mut form, &chars_of(" "));
    }
    append(&mut form, &combinator);
    append(&mut form, &chars_of(" "));
    if same_str(&form, "   ") {
        form = chars_of(" ");
    }
    let mut to = left;
    append(&mut to, &form);
    append(&mut to, &right);
    replace_first(&selector, &found, &to)
}

/// Removes one needless `*`, given the groups of its match.
pub fn apply_removal_step(
    selector: Vec<char>,
    stripped: &Vec<char>,
    quoted: &Vec<char>,
    groups: &Vec<Option<String>>,
) -> (r: Vec<char>)
    ensures
        r@ == removal_step(selector@, stripped@, quoted@, groups.deep_view()),
{
    if !has_group(groups, 2) {
        return selector;
    }
    let star = group(groups, 2);
    if contains(quoted, &star) || !contains(stripped, &star) {
        return selector;
    }
    let before = group(groups, 1);
    let after = group(groups, 3);
    if same_str(&after, ":") && has_group(groups, 4) {
        return selector;
    }
    let mut from = copy(&before);
    append(&mut from, &star);
    append(&mut from, &after);
    let to = concat(&before, &after);
    replace_first(&selector, &from, &to)
}

/// Puts the name of one pseudo-class in lower case, given the groups of
/// its match.
pub fn apply_pseudo_step(
    selector: Vec<char>,
    stripped: &Vec<char>,
    quoted: &Vec<char>,
    groups: &Vec<Option<String>>,
) -> (r: Vec<char>)
    ensures
        r@ == pseudo_step(selector@, stripped@, quoted@, groups.deep_view()),
{
    let name = group(groups, 1);
    if contains(quoted, &name) || !contains(stripped, &name) {
        return selector;
    }
    replace_first(&selector, &name, &to_lowercase(&name))
}

fn run_tree_pass(selector: Vec<char>, stripped: &Vec<char>, quoted: &Vec<char>) -> (r: Vec<char>)
    ensures
        r@ == tree_pass(
            selector@,
            stripped@,
            quoted@,
            regex_captures_all(TREE_SELECTOR@, selector@),
        ),
{
    let all = captures_all(TREE_SELECTOR, string_of(&selector).as_str());
    let ghost start = selector@;
    let ghost matches = all.deep_view();
    let mut cur = selector;
    let mut i: usize = 0;
    while i < all.len()
        invariant
            i <= all.len(),
            matches == all.deep_view(),
            cur@ == tree_pass(start, stripped@, quoted@, matches.take(i as int)),
        decreases all.len() - i,
    {
        proof {
            assert(matches.take(i + 1).drop_last() =~= matches.take(i as int));
        }
        cur = apply_tree_step(cur, stripped, quoted, &all[i]);
        i += 1;
    }
    assert(matches.take(matches.len() as int) =~= matches);
    cur
}

fn run_removal_pass(selector: Vec<char>, stripped: &Vec<char>, quoted: &Vec<char>) -> (r: Vec<
    char,
>)
    ensures
        r@ == removal_pass(
            selector@,
            stripped@,
            quoted@,
            regex_captures_all(REMOVAL_PATTERN@, selector@),
        ),
{
    let all = captures_all(REMOVAL_PATTERN, string_of(&selector).as_str());
    let ghost start = selector@;
    let ghost matches = all.deep_view();
    let mut cur = selector;
    let mut i: usize = 0;
    while i < all.len()
        invariant
            i <= all.len(),
            matches == all.deep_view(),
            cur@ == removal_pass(start, stripped@, quoted@, matches.take(i as int)),
        decreases all.len() - i,
    {
        proof {
            assert(matches.take(i + 1).drop_last() =~= matches.take(i as int));
        }
        cur = apply_removal_step(cur, stripped, quoted, &all[i]);
        i += 1;
    }
    assert(matches.take(matches.len() as int) =~= matches);
    cur
}

fn run_pseudo_pass(selector: Vec<char>, stripped: &Vec<char>, quoted: &Vec<char>) -> (r: Vec<
    char,
>)
    ensures
        r@ == pseudo_pass(
            selector@,
            stripped@,
            quoted@,
            regex_captures_all(PSEUDO_PATTERN@, selector@),
        ),
{
    let all = captures_all(PSEUDO_PATTERN, string_of(&selector).as_str());
    let ghost start = selector@;
    let ghost matches = all.deep_view();
    let mut cur = selector;
    let mut i: usize = 0;
    while i < all.len()
        invariant
            i <= all.len(),
            matches == all.deep_view(),
            cur@ == pseudo_pass(start, stripped@, quoted@, matches.take(i as int)),
        decreases all.len() - i,
    {
        proof {
            assert(matches.take(i + 1).drop_last() =~= matches.take(i as int));
        }
        cur = apply_pseudo_step(cur, stripped, quoted, &all[i]);
        i += 1;
    }
    assert(matches.take(matches.len() as int) =~= matches);
    cur
}

/// Puts a selector in standard syntax in canonical form.
pub fn tidy_selector(selector: &Vec<char>) -> (r: Vec<char>)
    ensures
        r@ == canonical_selector(selector@),
{
    let mut wrapped = chars_of("@");
    append(&mut wrapped, selector);
    append(&mut wrapped, &chars_of("@"));
    let (stripped, quoted) = set_strings_apart(&wrapped);
    let treed = run_tree_pass(wrapped, &stripped, &quoted);
    let cleared = run_removal_pass(treed, &stripped, &quoted);
    let lowered = if is_match(UNICODE_SELECTOR, string_of(&stripped).as_str()) {
        cleared
    } else {
        run_pseudo_pass(cleared, &stripped, &quoted)
    };
    if lowered.len() >= 2 {
        slice(&lowered, 1, lowered.len() - 1)
    } else {
        Vec::new()
    }
}

/// Puts a cosmetic rule in canonical form, given its domain list, its
/// separator and its selector; warns when it drops a domain.
pub fn element_tidy(domains: &str, separator: &str, selector: &str, warnings: &mut Vec<String>)
    -> (r: String)
    ensures
        r@ == tidied_element(domains@, separator@, selector@),
        strings(final(warnings)@) == strings(old(warnings)@) + domain_warnings(
            lowercase(domains@),
            separator@,
            selector@,
        ),
{
    let lower = to_lowercase(&chars_of(domains));
    let sep = chars_of(separator);
    let sel = chars_of(selector);
    let mut r = tidy_domains(&lower, &sep, &sel, warnings);
    append(&mut r, &sep);
    if is_extended_selector(&sel, &sep) {
        append(&mut r, &sel);
    } else {
        append(&mut r, &tidy_selector(&sel));
    }
    string_of(&r)
}

} // verus!
