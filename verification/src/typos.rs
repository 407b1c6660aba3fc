//! Detection and repair of common punctuation mistakes in a single rule.
//!
//! A line is checked against one of two families of rules, by its shape: the
//! network family or the cosmetic family. `detect_typo` applies the first
//! rule of the family that fires; `fix_all_typos` repeats that until no rule
//! fires, at most `MAX_ROUNDS` times.

use crate::pattern::{
    captures, group, group_text, is_match, regex_captures, regex_is_match, regex_replace,
    regex_replace_all, replace, replace_all,
};
use crate::text::{
    append, byte_len, byte_len_below, chars_of, contains_char, contains_str, index_of,
    is_prefix, leading, occurs, same, slice, starts_with_str, string_of, strings,
};
use vstd::prelude::*;

verus! {

/// A cosmetic rule with three or more `#` where two belong.
pub const EXTRA_HASH: &'static str = r"^([^#]*)(###+)([.#\[\*])";

/// A single `#` before the start of a selector.
pub const SINGLE_HASH: &'static str = r"^([^#]+)#([.#\[\*][a-zA-Z])";

/// Two dots at the start of a class selector.
pub const DOUBLE_DOT: &'static str = r"(##)\.\.([a-zA-Z])";

/// Two or more commas in a row.
pub const DOUBLE_COMMA: &'static str = r",,+";

/// Commas directly before the separator.
pub const TRAILING_COMMA: &'static str = r",+(#[@?$%]?#)";

/// Commas at the start of the line.
pub const LEADING_COMMA: &'static str = r"^,+([a-zA-Z])";

/// `|` between the domains of a cosmetic rule.
pub const WRONG_COSMETIC_SEPARATOR: &'static str =
    r"^([a-zA-Z0-9~][a-zA-Z0-9\.\-,]*\.[a-zA-Z]{2,})\|([a-zA-Z0-9~][a-zA-Z0-9\.\-\|,]*)(#[@?$%]?#|#@[$%?]#|#\+js)";

/// `$$$` before `domain=`.
pub const TRIPLE_DOLLAR: &'static str = r"\$\$\$domain=";

/// `$$` before `domain=`.
pub const DOUBLE_DOLLAR: &'static str = r"\$\$domain=";

/// `domain=` directly after a file extension or `^`, without `$`.
pub const MISSING_DOLLAR: &'static str =
    r"(\.(js|css|html|php|json|xml|gif|png|jpg|jpeg|svg|webp|woff2?|ttf|eot|mp[34]|m3u8)|\^)domain=([a-zA-Z0-9][\w\-]*\.[a-zA-Z]{2,})";

/// `,` between two domains of a `domain=` option. What follows the comma
/// has to be a domain with a dot as well, so that an option is not taken
/// for one.
pub const WRONG_DOMAIN_SEPARATOR: &'static str =
    r"(domain=|\|)([a-zA-Z0-9~\*][a-zA-Z0-9\.\-\*]*\.[a-zA-Z]{2,}),([a-zA-Z0-9~\*][a-zA-Z0-9\.\-\*]*\.[a-zA-Z]{2,})";

/// The most rounds of repair that `fix_all_typos` makes on one line.
pub const MAX_ROUNDS: usize = 10;

/// One repair: the line as it was, as it should be, and what was wrong.
#[derive(Debug, Clone)]
pub struct Typo {
    pub original: String,
    pub fixed: String,
    pub description: String,
}

/// A line that was added to a file.
#[derive(Debug, Clone)]
pub struct Addition {
    pub file: String,
    pub line_num: usize,
    pub content: String,
}

/// A repaired line and the description of the repair.
pub type Fix = (Seq<char>, Seq<char>);

/// Lines that are never checked: short ones, comments, headers, directives.
pub open spec fn unchecked(line: Seq<char>) -> bool {
    byte_len(line) < 4 || is_prefix(line, "!"@) || is_prefix(line, "["@)
        || is_prefix(line, "%"@)
}

/// Lines that are checked against the network family.
pub open spec fn network_shaped(line: Seq<char>) -> bool {
    is_prefix(line, "|"@) || is_prefix(line, "@@"@) || occurs(line, "$domain="@) || occurs(
        line,
        ",domain="@,
    )
}

/// The repair by a rule that fires when its pattern matches: the leftmost
/// match is rewritten by the template.
pub open spec fn fix_where_matched(
    line: Seq<char>,
    pattern: Seq<char>,
    template: Seq<char>,
    note: Seq<char>,
) -> Option<Fix> {
    if regex_is_match(pattern, line) {
        Some((regex_replace(pattern, line, template), note))
    } else {
        None
    }
}

/// The repair by a rule that rewrites every match and fires when that
/// changes the line.
pub open spec fn fix_where_changed(
    line: Seq<char>,
    pattern: Seq<char>,
    template: Seq<char>,
    note: Seq<char>,
) -> Option<Fix> {
    fix_if_changed(line, regex_replace_all(pattern, line, template), note)
}

/// `Some` repair when `fixed` differs from `line`.
pub open spec fn fix_if_changed(line: Seq<char>, fixed: Seq<char>, note: Seq<char>) -> Option<
    Fix,
> {
    if fixed != line {
        Some((fixed, note))
    } else {
        None
    }
}

/// The first of two optional repairs.
pub open spec fn or_else(a: Option<Fix>, b: Option<Fix>) -> Option<Fix> {
    if a is Some {
        a
    } else {
        b
    }
}

/// The repair of a network rule, by the first rule that fires.
pub open spec fn network_fix(line: Seq<char>) -> Option<Fix> {
    or_else(
        fix_where_matched(line, TRIPLE_DOLLAR@, "$$domain="@, "Triple $ ($$$ ? $)"@),
        or_else(
            fix_where_matched(line, DOUBLE_DOLLAR@, "$$domain="@, "Double $ ($$ ? $)"@),
            or_else(
                fix_where_matched(
                    line,
                    MISSING_DOLLAR@,
                    "$1$$domain=$3"@,
                    "Missing $ before domain="@,
                ),
                fix_where_matched(
                    line,
                    WRONG_DOMAIN_SEPARATOR@,
                    "$1$2|$3"@,
                    "Wrong domain separator (, ? |)"@,
                ),
            ),
        ),
    )
}

/// The repair of a run of three or more `#`: fires when the pattern's second
/// group, the run, is longer than two bytes.
pub open spec fn extra_hash_fix(line: Seq<char>) -> Option<Fix> {
    match regex_captures(EXTRA_HASH@, line) {
        Some(groups) => {
            let hashes = group_text(groups, 2);
            if byte_len(hashes) > 2 {
                Some(
                    (
                        regex_replace(EXTRA_HASH@, line, "${1}##${3}"@),
                        "Extra # ("@ + hashes + " ? ##)"@,
                    ),
                )
            } else {
                None
            }
        },
        None => None,
    }
}

/// The repair of a single `#`: tried only on a line without `##`.
pub open spec fn single_hash_fix(line: Seq<char>) -> Option<Fix> {
    if occurs(line, "##"@) {
        None
    } else {
        fix_where_changed(line, SINGLE_HASH@, "${1}##${2}"@, "Single # (# ? ##)"@)
    }
}

/// A separator of a cosmetic rule begins at index `i` of `s`: `##`, or `#`,
/// one or two of `@ ? $ %`, and `#`.
pub open spec fn separator_at(s: Seq<char>, i: int) -> bool {
    &&& 0 <= i
    &&& i + 1 < s.len()
    &&& s[i] == '#'
    &&& {
        ||| s[i + 1] == '#'
        ||| i + 2 < s.len() && marker(s[i + 1]) && s[i + 2] == '#'
        ||| i + 3 < s.len() && s[i + 1] == '@' && marker(s[i + 2]) && s[i + 2] != '@' && s[i + 3]
            == '#'
    }
}

/// The characters that can stand between the two `#` of a separator.
pub open spec fn marker(c: char) -> bool {
    c == '@' || c == '?' || c == '$' || c == '%'
}

/// Index of the first separator at or after `from`; the length of `s` when
/// there is none.
pub open spec fn separator_from(s: Seq<char>, from: int) -> int
    decreases s.len() - from + 1,
{
    if from < 0 || from >= s.len() {
        s.len() as int
    } else if separator_at(s, from) {
        from
    } else {
        separator_from(s, from + 1)
    }
}

/// `s` without the spaces that directly follow a comma.
pub open spec fn without_space_after_comma(s: Seq<char>) -> Seq<char>
    decreases s.len(),
{
    if s.len() == 0 {
        s
    } else {
        let head = without_space_after_comma(s.drop_last());
        if s.len() >= 2 && s.last() == ' ' && s[s.len() - 2] == ',' {
            head
        } else {
            head.push(s.last())
        }
    }
}

/// The repair of spaces after commas in the domain list, the part of the
/// line to the left of its first separator. What follows the separator is
/// left as it is.
pub open spec fn comma_space_fix(line: Seq<char>) -> Option<Fix> {
    let cut = separator_from(line, 0);
    if cut < line.len() {
        fix_if_changed(
            line,
            without_space_after_comma(line.subrange(0, cut)) + line.subrange(
                cut,
                line.len() as int,
            ),
            "Space after comma in domain list"@,
        )
    } else {
        None
    }
}

/// The repair of a cosmetic rule, by the first rule that fires.
pub open spec fn cosmetic_fix(line: Seq<char>) -> Option<Fix> {
    or_else(
        fix_where_matched(
            line,
            WRONG_COSMETIC_SEPARATOR@,
            "$1,$2$3"@,
            "Wrong cosmetic separator (| ? ,)"@,
        ),
        or_else(
            extra_hash_fix(line),
            or_else(
                single_hash_fix(line),
                or_else(
                    fix_where_changed(line, DOUBLE_DOT@, "${1}.${2}"@, "Double dot (.. ? .)"@),
                    or_else(
                        fix_where_changed(line, DOUBLE_COMMA@, ","@, "Double comma (,, ? ,)"@),
                        or_else(
                            fix_where_changed(
                                line,
                                TRAILING_COMMA@,
                                "${1}"@,
                                "Trailing comma before ##"@,
                            ),
                            or_else(
                                fix_where_changed(
                                    line,
                                    LEADING_COMMA@,
                                    "${1}"@,
                                    "Leading comma removed"@,
                                ),
                                comma_space_fix(line),
                            ),
                        ),
                    ),
                ),
            ),
        ),
    )
}

/// The repair that `detect_typo` makes on `line`, if any.
pub open spec fn typo_of(line: Seq<char>) -> Option<Fix> {
    if unchecked(line) {
        None
    } else if network_shaped(line) {
        network_fix(line)
    } else if !line.contains('#') {
        None
    } else {
        cosmetic_fix(line)
    }
}

/// What `rounds` rounds of repair make of `line`: the line in the end and
/// the descriptions of the repairs, in the order they were made.
pub open spec fn fix_chain(line: Seq<char>, rounds: nat) -> (Seq<char>, Seq<Seq<char>>)
    decreases rounds,
{
    if rounds == 0 {
        (line, Seq::<Seq<char>>::empty())
    } else {
        match typo_of(line) {
            Some(fix) => {
                let rest = fix_chain(fix.0, (rounds - 1) as nat);
                (rest.0, seq![fix.1] + rest.1)
            },
            None => (line, Seq::<Seq<char>>::empty()),
        }
    }
}

/// A line that took fewer rounds of repair than it was given has no typo
/// left, and repairing it again changes nothing and repairs nothing.
pub proof fn lemma_fix_chain_settles(line: Seq<char>, rounds: nat, again: nat)
    requires
        fix_chain(line, rounds).1.len() < rounds,
    ensures
        typo_of(fix_chain(line, rounds).0) is None,
        fix_chain(fix_chain(line, rounds).0, again) == (
            fix_chain(line, rounds).0,
            Seq::<Seq<char>>::empty(),
        ),
    decreases rounds,
{
    if rounds > 0 {
        match typo_of(line) {
            Some(fix) => {
                lemma_fix_chain_settles(fix.0, (rounds - 1) as nat, again);
            },
            None => {},
        }
    }
}

/// No more repairs are made than rounds are given.
pub proof fn lemma_fix_chain_bounded(line: Seq<char>, rounds: nat)
    ensures
        fix_chain(line, rounds).1.len() <= rounds,
    decreases rounds,
{
    if rounds > 0 {
        match typo_of(line) {
            Some(fix) => {
                lemma_fix_chain_bounded(fix.0, (rounds - 1) as nat);
            },
            None => {},
        }
    }
}

/// A typo stands for the repair `fix` of `line`.
pub open spec fn typo_is(t: Typo, line: Seq<char>, fix: Fix) -> bool {
    t.original@ == line && t.fixed@ == fix.0 && t.description@ == fix.1
}

/// An optional typo stands for the optional repair `fix` of `line`.
pub open spec fn found_is(r: Option<Typo>, line: Seq<char>, fix: Option<Fix>) -> bool {
    match r {
        Some(t) => fix is Some && typo_is(t, line, fix->0),
        None => fix is None,
    }
}

/// The typo made of a line, its repaired form and a description, when the
/// repaired form differs from the line.
pub fn typo_if_changed(line: &str, fixed: String, description: &str) -> (r: Option<Typo>)
    ensures
        found_is(r, line@, fix_if_changed(line@, fixed@, description@)),
{
    let a = chars_of(line);
    let b = chars_of(fixed.as_str());
    if same(&a, &b) {
        None
    } else {
        Some(Typo { original: line.to_owned(), fixed, description: description.to_owned() })
    }
}

fn try_match(line: &str, pattern: &str, template: &str, description: &str) -> (r: Option<Typo>)
    ensures
        found_is(r, line@, fix_where_matched(line@, pattern@, template@, description@)),
{
    if is_match(pattern, line) {
        let fixed = replace(pattern, line, template);
        Some(Typo { original: line.to_owned(), fixed, description: description.to_owned() })
    } else {
        None
    }
}

fn try_fix(line: &str, pattern: &str, template: &str, description: &str) -> (r: Option<Typo>)
    ensures
        found_is(r, line@, fix_where_changed(line@, pattern@, template@, description@)),
{
    let fixed = replace_all(pattern, line, template);
    typo_if_changed(line, fixed, description)
}

fn detect_network(line: &str) -> (r: Option<Typo>)
    ensures
        found_is(r, line@, network_fix(line@)),
{
    let r = try_match(line, TRIPLE_DOLLAR, "$$domain=", "Triple $ ($$$ ? $)");
    if r.is_some() {
        return r;
    }
    let r = try_match(line, DOUBLE_DOLLAR, "$$domain=", "Double $ ($$ ? $)");
    if r.is_some() {
        return r;
    }
    let r = try_match(line, MISSING_DOLLAR, "$1$$domain=$3", "Missing $ before domain=");
    if r.is_some() {
        return r;
    }
    try_match(line, WRONG_DOMAIN_SEPARATOR, "$1$2|$3", "Wrong domain separator (, ? |)")
}

/// The typo for a run of `#` that the extra-hash pattern captured.
pub fn extra_hash_typo(line: &str, groups: &Vec<Option<String>>, fixed: String) -> (r: Option<
    Typo,
>)
    ensures
        match r {
            Some(t) => byte_len(group_text(groups.deep_view(), 2)) > 2 && typo_is(
                t,
                line@,
                (fixed@, "Extra # ("@ + group_text(groups.deep_view(), 2) + " ? ##)"@),
            ),
            None => byte_len(group_text(groups.deep_view(), 2)) <= 2,
        },
{
    let hashes = group(groups, 2);
    if !byte_len_below(&hashes, 3) {
        let mut note = chars_of("Extra # (");
        append(&mut note, &hashes);
        let tail = chars_of(" ? ##)");
        append(&mut note, &tail);
        Some(Typo { original: line.to_owned(), fixed, description: string_of(&note) })
    } else {
        None
    }
}

fn detect_extra_hash(line: &str) -> (r: Option<Typo>)
    ensures
        found_is(r, line@, extra_hash_fix(line@)),
{
    match captures(EXTRA_HASH, line) {
        Some(groups) => {
            let fixed = replace(EXTRA_HASH, line, "${1}##${3}");
            extra_hash_typo(line, &groups, fixed)
        },
        None => None,
    }
}

/// Whether a separator of a cosmetic rule begins at index `i` of `s`.
pub fn is_separator_at(s: &Vec<char>, i: usize) -> (b: bool)
    ensures
        b == separator_at(s@, i as int),
{
    let n = s.len();
    if n < 2 || i >= n - 1 || s[i] != '#' {
        return false;
    }
    if s[i + 1] == '#' {
        return true;
    }
    if n - i > 2 && is_marker(s[i + 1]) && s[i + 2] == '#' {
        return true;
    }
    n - i > 3 && s[i + 1] == '@' && is_marker(s[i + 2]) && s[i + 2] != '@' && s[i + 3] == '#'
}

fn is_marker(c: char) -> (b: bool)
    ensures
        b == marker(c),
{
    c == '@' || c == '?' || c == '$' || c == '%'
}

/// Index of the first separator of `s`; its length when there is none.
pub fn find_separator(s: &Vec<char>) -> (i: usize)
    ensures
        i == separator_from(s@, 0),
        i <= s.len(),
{
    let mut i: usize = 0;
    while i < s.len()
        invariant
            i <= s.len(),
            separator_from(s@, 0) == separator_from(s@, i as int),
        decreases s.len() - i,
    {
        if is_separator_at(s, i) {
            return i;
        }
        i += 1;
    }
    i
}

/// `s` without the spaces that directly follow a comma.
pub fn strip_space_after_comma(s: &Vec<char>) -> (r: Vec<char>)
    ensures
        r@ == without_space_after_comma(s@),
{
    let mut r: Vec<char> = Vec::new();
    let mut i: usize = 0;
    while i < s.len()
        invariant
            i <= s.len(),
            r@ == without_space_after_comma(s@.take(i as int)),
        decreases s.len() - i,
    {
        proof {
            let t = s@.take(i + 1);
            assert(t.drop_last() =~= s@.take(i as int));
        }
        if !(i >= 1 && s[i] == ' ' && s[i - 1] == ',') {
            r.push(s[i]);
        }
        i += 1;
    }
    assert(s@.take(s.len() as int) =~= s@);
    r
}

/// The typo for spaces after commas in the domain list of `line`.
pub fn detect_comma_space(line: &str) -> (r: Option<Typo>)
    ensures
        found_is(r, line@, comma_space_fix(line@)),
{
    let s = chars_of(line);
    let cut = find_separator(&s);
    if cut < s.len() {
        let left = slice(&s, 0, cut);
        let right = slice(&s, cut, s.len());
        let mut fixed = strip_space_after_comma(&left);
        append(&mut fixed, &right);
        typo_if_changed(line, string_of(&fixed), "Space after comma in domain list")
    } else {
        None
    }
}

fn detect_cosmetic(line: &str, chars: &Vec<char>) -> (r: Option<Typo>)
    requires
        chars@ == line@,
    ensures
        found_is(r, line@, cosmetic_fix(line@)),
{
    let r = try_match(
        line,
        WRONG_COSMETIC_SEPARATOR,
        "$1,$2$3",
        "Wrong cosmetic separator (| ? ,)",
    );
    if r.is_some() {
        return r;
    }
    let r = detect_extra_hash(line);
    if r.is_some() {
        return r;
    }
    if !contains_str(chars, "##") {
        let r = try_fix(line, SINGLE_HASH, "${1}##${2}", "Single # (# ? ##)");
        if r.is_some() {
            return r;
        }
    }
    let r = try_fix(line, DOUBLE_DOT, "${1}.${2}", "Double dot (.. ? .)");
    if r.is_some() {
        return r;
    }
    let r = try_fix(line, DOUBLE_COMMA, ",", "Double comma (,, ? ,)");
    if r.is_some() {
        return r;
    }
    let r = try_fix(line, TRAILING_COMMA, "${1}", "Trailing comma before ##");
    if r.is_some() {
        return r;
    }
    let r = try_fix(line, LEADING_COMMA, "${1}", "Leading comma removed");
    if r.is_some() {
        return r;
    }
    detect_comma_space(line)
}

/// Checks one line for a typo and returns the repair by the first rule that
/// fires, or `None` when none does.
pub fn detect_typo(line: &str) -> (r: Option<Typo>)
    ensures
        found_is(r, line@, typo_of(line@)),
{
    let chars = chars_of(line);
    if byte_len_below(&chars, 4) || starts_with_str(&chars, "!") || starts_with_str(&chars, "[")
        || starts_with_str(&chars, "%") {
        return None;
    }
    if starts_with_str(&chars, "|") || starts_with_str(&chars, "@@") || contains_str(
        &chars,
        "$domain=",
    ) || contains_str(&chars, ",domain=") {
        return detect_network(line);
    }
    if !contains_char(&chars, '#') {
        return None;
    }
    detect_cosmetic(line, &chars)
}

/// Repairs a line until no rule fires, at most `MAX_ROUNDS` times; returns
/// the line in the end and the descriptions of the repairs made, in order.
pub fn fix_all_typos(line: &str) -> (r: (String, Vec<String>))
    ensures
        (r.0@, strings(r.1@)) == fix_chain(line@, MAX_ROUNDS as nat),
        r.1.len() <= MAX_ROUNDS,
        r.1.len() < MAX_ROUNDS ==> typo_of(r.0@) is None,
{
    proof {
        lemma_fix_chain_bounded(line@, MAX_ROUNDS as nat);
        if fix_chain(line@, MAX_ROUNDS as nat).1.len() < MAX_ROUNDS {
            lemma_fix_chain_settles(line@, MAX_ROUNDS as nat, 0);
        }
    }
    let mut current: String = line.to_owned();
    let mut notes: Vec<String> = Vec::new();
    let mut round: usize = 0;
    while round < MAX_ROUNDS
        invariant
            round <= MAX_ROUNDS,
            fix_chain(line@, MAX_ROUNDS as nat).1.len() <= MAX_ROUNDS,
            fix_chain(line@, MAX_ROUNDS as nat).1.len() < MAX_ROUNDS ==> typo_of(
                fix_chain(line@, MAX_ROUNDS as nat).0,
            ) is None,
            fix_chain(line@, MAX_ROUNDS as nat).0 == fix_chain(
                current@,
                (MAX_ROUNDS - round) as nat,
            ).0,
            fix_chain(line@, MAX_ROUNDS as nat).1 == strings(notes@) + fix_chain(
                current@,
                (MAX_ROUNDS - round) as nat,
            ).1,
        decreases MAX_ROUNDS - round,
    {
        match detect_typo(current.as_str()) {
            Some(typo) => {
                notes.push(typo.description);
                current = typo.fixed;
            },
            None => {
                return (current, notes);
            },
        }
        round += 1;
    }
    (current, notes)
}

/// The additions in which `detect_typo` finds a typo.
pub open spec fn flagged(additions: Seq<Addition>) -> Seq<Addition> {
    additions.filter(|a: Addition| typo_of(a.content@) is Some)
}

/// Checks each added line for a typo; returns the additions that have one,
/// in their order, each with its repair.
pub fn check_additions(additions: &[Addition]) -> (results: Vec<(Addition, Typo)>)
    ensures
        results@.map_values(|p: (Addition, Typo)| p.0) == flagged(additions@),
        forall|i: int|
            0 <= i < results.len() ==> typo_of((#[trigger] results[i]).0.content@) is Some
                && typo_is(results[i].1, results[i].0.content@, typo_of(results[i].0.content@)->0),
{
    let mut results: Vec<(Addition, Typo)> = Vec::new();
    let mut i: usize = 0;
    while i < additions.len()
        invariant
            i <= additions.len(),
            results@.map_values(|p: (Addition, Typo)| p.0) == flagged(additions@.take(i as int)),
            forall|k: int|
                0 <= k < results.len() ==> typo_of((#[trigger] results[k]).0.content@) is Some
                    && typo_is(
                    results[k].1,
                    results[k].0.content@,
                    typo_of(results[k].0.content@)->0,
                ),
        decreases additions.len() - i,
    {
        let add = &additions[i];
        proof {
            let t = additions@.take(i + 1);
            assert(t.drop_last() =~= additions@.take(i as int));
            reveal(Seq::filter);
        }
        match detect_typo(add.content.as_str()) {
            Some(typo) => {
                let copy = Addition {
                    file: add.file.clone(),
                    line_num: add.line_num,
                    content: add.content.clone(),
                };
                results.push((copy, typo));
            },
            None => {},
        }
        i += 1;
    }
    assert(additions@.take(additions.len() as int) =~= additions@);
    results
}

/// An added line, as a value of the model.
pub struct Added {
    pub file: Seq<char>,
    pub line_num: nat,
    pub content: Seq<char>,
}

impl View for Addition {
    type V = Added;

    open spec fn view(&self) -> Added {
        Added { file: self.file@, line_num: self.line_num as nat, content: self.content@ }
    }
}

/// The added lines that a list holds.
pub open spec fn additions(list: Seq<Addition>) -> Seq<Added> {
    list.map_values(|a: Addition| a@)
}

/// The test for being a decimal digit.
pub open spec fn digit_test() -> spec_fn(char) -> bool {
    |c: char| '0' <= c && c <= '9'
}

/// The number that a text of decimal digits writes.
pub open spec fn number(digits: Seq<char>) -> nat
    decreases digits.len(),
{
    if digits.len() == 0 {
        0
    } else {
        (number(digits.drop_last()) * 10 + (digits.last() as u32 - '0' as u32)) as nat
    }
}

/// The number that the decimal form of a number writes is that number.
pub proof fn lemma_number_of_decimal(n: nat)
    ensures
        number(crate::text::decimal(n)) == n,
    decreases n,
{
    let d = crate::text::decimal(n);
    if n < 10 {
        assert(d.drop_last() =~= Seq::<char>::empty());
        assert(number(Seq::<char>::empty()) == 0);
    } else {
        lemma_number_of_decimal(n / 10);
        assert(d.drop_last() =~= crate::text::decimal(n / 10));
    }
}

/// The number of the first line that a hunk of a unified diff adds to: the
/// number behind the first ` +` of the hunk's header. `None` where there is
/// no number or it is greater than `limit`.
pub open spec fn hunk_start(header: Seq<char>, limit: nat) -> Option<nat> {
    match index_of(header, seq![' ', '+']) {
        Some(at) => {
            let rest = header.skip(at + 2);
            let digits = rest.take(leading(rest, digit_test()) as int);
            if digits.len() > 0 && number(digits) <= limit {
                Some(number(digits))
            } else {
                None
            }
        },
        None => None,
    }
}

/// The name of the file that a `+++` line of a unified diff names: what
/// stands behind `+++ `, without `b/` in front.
pub open spec fn named_file(line: Seq<char>) -> Seq<char> {
    let rest = line.skip(4);
    if is_prefix(rest, seq!['b', '/']) {
        rest.skip(2)
    } else {
        rest
    }
}

/// Where a reading of a unified diff stands: the file and the number of
/// the line that the next line of the diff speaks of, and the added lines
/// found so far.
pub struct Cursor {
    pub file: Seq<char>,
    pub line: nat,
    pub found: Seq<Added>,
}

/// The cursor after one more line of a unified diff. A `+++` line names
/// the file; a hunk's header gives the line number; an added line is noted
/// and counted; a line of context is counted; any other line is passed
/// over. Line numbers stop at `limit`.
pub open spec fn advance(c: Cursor, line: Seq<char>, limit: nat) -> Cursor {
    let next = if c.line < limit {
        c.line + 1
    } else {
        c.line
    };
    if is_prefix(line, seq!['+', '+', '+', ' ']) {
        Cursor { file: named_file(line), ..c }
    } else if is_prefix(line, seq!['@', '@']) {
        match hunk_start(line, limit) {
            Some(n) => Cursor { line: n, ..c },
            None => c,
        }
    } else if is_prefix(line, seq!['+']) && !is_prefix(line, seq!['+', '+', '+']) {
        Cursor {
            line: next,
            found: c.found.push(
                Added { file: c.file, line_num: c.line, content: line.skip(1) },
            ),
            ..c
        }
    } else if is_prefix(line, seq![' ']) {
        Cursor { line: next, ..c }
    } else {
        c
    }
}

/// The cursor after the lines of `list`.
pub open spec fn read_diff(list: Seq<Seq<char>>, limit: nat) -> Cursor
    decreases list.len(),
{
    if list.len() == 0 {
        Cursor { file: Seq::<char>::empty(), line: 0, found: Seq::<Added>::empty() }
    } else {
        advance(read_diff(list.drop_last(), limit), list.last(), limit)
    }
}

fn read_number(rest: &Vec<char>, limit: usize) -> (r: Option<usize>)
    ensures
        ({
            let digits = rest@.take(leading(rest@, digit_test()) as int);
            match r {
                Some(n) => digits.len() > 0 && number(digits) == n && n <= limit,
                None => !(digits.len() > 0 && number(digits) <= limit),
            }
        }),
{
    let mut value: usize = 0;
    let mut i: usize = 0;
    while i < rest.len() && '0' <= rest[i] && rest[i] <= '9'
        invariant
            i <= rest.len(),
            value <= limit,
            value == number(rest@.take(i as int)),
            forall|k: int| 0 <= k < i ==> digit_test()(#[trigger] rest@[k]),
        decreases rest.len() - i,
    {
        let d: usize = (rest[i] as u32 - '0' as u32) as usize;
        proof {
            assert(rest@.take(i + 1).drop_last() =~= rest@.take(i as int));
        }
        if d > limit || value > (limit - d) / 10 {
            proof {
                let k: int = i + 1;
                assert(number(rest@.take(k)) > limit) by (nonlinear_arith)
                    requires
                        number(rest@.take(k)) == value * 10 + d,
                        d > limit || value > (limit - d) / 10,
                        0 <= d <= 9,
                ;
                lemma_number_grows(rest@, i + 1);
            }
            return None;
        }
        assert(value * 10 + d <= limit) by (nonlinear_arith)
            requires
                value <= (limit - d) / 10,
                d <= limit,
        ;
        value = value * 10 + d;
        i += 1;
    }
    proof {
        crate::text::lemma_leading(rest@, digit_test(), i as int);
    }
    if i == 0 {
        None
    } else {
        Some(value)
    }
}

/// A run of digits writes a number no smaller than any of its beginnings.
proof fn lemma_number_grows(s: Seq<char>, n: int)
    requires
        0 <= n <= leading(s, digit_test()) || (0 <= n <= s.len() && forall|k: int|
            0 <= k < n ==> digit_test()(#[trigger] s[k])),
    ensures
        n <= leading(s, digit_test()),
        number(s.take(n)) <= number(s.take(leading(s, digit_test()) as int)),
    decreases leading(s, digit_test()) - n,
{
    crate::text::lemma_leading_run(s, digit_test());
    let all = leading(s, digit_test()) as int;
    if n < all {
        lemma_number_grows(s, n + 1);
        assert(s.take(n + 1).drop_last() =~= s.take(n));
    }
}

/// The added lines that a unified diff holds, each with the file and the
/// line number that the diff gives it.
pub fn added_lines(diff: &str) -> (found: Vec<Addition>)
    ensures
        additions(found@) == read_diff(crate::text::rows(diff@), usize::MAX as nat).found,
{
    let list = crate::text::lines(&chars_of(diff));
    let ghost all = crate::text::texts(list@);
    let ghost limit = usize::MAX as nat;
    let mut found: Vec<Addition> = Vec::new();
    let mut file: Vec<char> = Vec::new();
    let mut line_num: usize = 0;
    let plus3: Vec<char> = vec!['+', '+', '+'];
    let plus3_blank: Vec<char> = vec!['+', '+', '+', ' '];
    let at2: Vec<char> = vec!['@', '@'];
    let blank_plus: Vec<char> = vec![' ', '+'];
    let b_slash: Vec<char> = vec!['b', '/'];
    let plus: Vec<char> = vec!['+'];
    let blank: Vec<char> = vec![' '];
    let mut i: usize = 0;
    assert(additions(found@) =~= Seq::<Added>::empty());
    while i < list.len()
        invariant
            i <= list.len(),
            all == crate::text::texts(list@),
            limit == usize::MAX as nat,
            plus3@ == seq!['+', '+', '+'],
            plus3_blank@ == seq!['+', '+', '+', ' '],
            at2@ == seq!['@', '@'],
            blank_plus@ == seq![' ', '+'],
            b_slash@ == seq!['b', '/'],
            plus@ == seq!['+'],
            blank@ == seq![' '],
            read_diff(all.take(i as int), limit) == (Cursor {
                file: file@,
                line: line_num as nat,
                found: additions(found@),
            }),
        decreases list.len() - i,
    {
        let ghost before = found@;
        proof {
            assert(all.take(i + 1).drop_last() =~= all.take(i as int));
        }
        let line = &list[i];
        let n: usize = line.len();
        if crate::text::starts_with(line, &plus3_blank) {
            let rest = slice(line, 4, n);
            if crate::text::starts_with(&rest, &b_slash) {
                file = slice(&rest, 2, rest.len());
            } else {
                file = rest;
            }
        } else if crate::text::starts_with(line, &at2) {
            proof {
                crate::text::lemma_index_from(line@, blank_plus@, 0);
            }
            match crate::text::find(line, &blank_plus) {
                Some(at) => {
                    let rest = slice(line, at + 2, n);
                    match read_number(&rest, usize::MAX) {
                        Some(start) => {
                            line_num = start;
                        },
                        None => {},
                    }
                },
                None => {},
            }
        } else if crate::text::starts_with(line, &plus) && !crate::text::starts_with(
            line,
            &plus3,
        ) {
            let content = slice(line, 1, n);
            found.push(
                Addition { file: string_of(&file), line_num, content: string_of(&content) },
            );
            assert(additions(found@) =~= additions(before).push(
                Added { file: file@, line_num: line_num as nat, content: content@ },
            ));
            if line_num < usize::MAX {
                line_num += 1;
            }
        } else if crate::text::starts_with(line, &blank) {
            if line_num < usize::MAX {
                line_num += 1;
            }
        }
        i += 1;
    }
    assert(all.take(all.len() as int) =~= all);
    found
}

/// The repair of one line of a text.
pub struct LineRepair {
    /// The number of the line, counted from 1.
    pub line_num: usize,
    /// The line as it was.
    pub original: String,
    /// The line as it is.
    pub fixed: String,
    /// What was wrong, one description for each repair made.
    pub descriptions: Vec<String>,
}

/// The repair of one line, as a value of the model.
pub struct Repaired {
    pub line_num: nat,
    pub original: Seq<char>,
    pub fixed: Seq<char>,
    pub descriptions: Seq<Seq<char>>,
}

impl View for LineRepair {
    type V = Repaired;

    open spec fn view(&self) -> Repaired {
        Repaired {
            line_num: self.line_num as nat,
            original: self.original@,
            fixed: self.fixed@,
            descriptions: strings(self.descriptions@),
        }
    }
}

/// The repairs that a list holds.
pub open spec fn repairs(list: Seq<LineRepair>) -> Seq<Repaired> {
    list.map_values(|r: LineRepair| r@)
}

/// The lines of `list`, each with its typos repaired.
pub open spec fn repaired_lines(list: Seq<Seq<char>>) -> Seq<Seq<char>> {
    list.map_values(|l: Seq<char>| fix_chain(l, MAX_ROUNDS as nat).0)
}

/// The repairs made on the lines of `list`, in order: one for each line
/// that had a typo.
pub open spec fn line_repairs(list: Seq<Seq<char>>) -> Seq<Repaired>
    decreases list.len(),
{
    if list.len() == 0 {
        Seq::<Repaired>::empty()
    } else {
        let chain = fix_chain(list.last(), MAX_ROUNDS as nat);
        if chain.1.len() > 0 {
            line_repairs(list.drop_last()).push(
                Repaired {
                    line_num: list.len(),
                    original: list.last(),
                    fixed: chain.0,
                    descriptions: chain.1,
                },
            )
        } else {
            line_repairs(list.drop_last())
        }
    }
}

/// Repairs the typos of each line of a text. Returns the text with each
/// line repaired and followed by a line feed, and the repairs made.
pub fn repair_text(content: &str) -> (r: (String, Vec<LineRepair>))
    ensures
        r.0@ == crate::text::laid_out(
            repaired_lines(crate::text::rows(content@)),
            seq!['\n'],
            true,
        ),
        repairs(r.1@) == line_repairs(crate::text::rows(content@)),
{
    let list = crate::text::lines(&chars_of(content));
    let ghost all = crate::text::texts(list@);
    let mut fixed_lines: Vec<Vec<char>> = Vec::new();
    let mut found: Vec<LineRepair> = Vec::new();
    let mut i: usize = 0;
    while i < list.len()
        invariant
            i <= list.len(),
            all == crate::text::texts(list@),
            fixed_lines.len() == i,
            forall|k: int|
                0 <= k < i ==> (#[trigger] fixed_lines@[k])@ == fix_chain(
                    all[k],
                    MAX_ROUNDS as nat,
                ).0,
            repairs(found@) == line_repairs(all.take(i as int)),
        decreases list.len() - i,
    {
        proof {
            assert(all.take(i + 1).drop_last() =~= all.take(i as int));
        }
        let original = string_of(&list[i]);
        let fixed = fix_all_typos(original.as_str());
        fixed_lines.push(chars_of(fixed.0.as_str()));
        if fixed.1.len() > 0 {
            let repair = LineRepair {
                line_num: i + 1,
                original,
                fixed: fixed.0,
                descriptions: fixed.1,
            };
            found.push(repair);
        }
        i += 1;
    }
    assert(all.take(all.len() as int) =~= all);
    assert(crate::text::texts(fixed_lines@) =~= repaired_lines(all));
    let feed: Vec<char> = vec!['\n'];
    assert(feed@ =~= seq!['\n']);
    (string_of(&crate::text::lay_out(&fixed_lines, &feed, true)), found)
}

} // verus!
