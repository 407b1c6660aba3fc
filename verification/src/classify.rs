//! The line classifier: tells comments, headers, directives, cosmetic rules,
//! network rules, entries of a hosts file and junk apart.

use crate::pattern::{captures, group, group_text, is_match, regex_captures, regex_is_match};
use crate::sections::SortConfig;
use crate::text::{
    byte_len, byte_len_below, chars_of, contains_char, ends_with_str, is_prefix, is_suffix,
    same_str, starts_with, starts_with_str, string_of, strings,
};
use vstd::prelude::*;

verus! {

/// A cosmetic rule with any of the eight separators: domains, separator,
/// selector.
pub const ELEMENT_PATTERN: &'static str =
    r#"^([^/|@"!]*?)(##|#@#|#\?#|#@\?#|#\$#|#@\$#|#%#|#@%#)(.+)$"#;

/// A cosmetic rule whose selector holds no `{` or `}`.
pub const PLAIN_ELEMENT_PATTERN: &'static str =
    r#"^([^/|@"!]*?)(#[@?$%]?#|#@[$%?]#)([^{}]+)$"#;

/// A cosmetic rule whose domain is a regular expression.
pub const REGEX_ELEMENT_PATTERN: &'static str =
    r#"^(/[^#]+/)(##|#@#|#\?#|#@\?#|#\$#|#@\$#|#%#|#@%#)(.+)$"#;

/// An entry of a hosts file: the address and the host.
pub const LOCALHOST_PATTERN: &'static str = r"^(0\.0\.0\.0|127\.0\.0\.1)\s+(.+)$";

/// A rule that begins, after any `|`, with a letter or a digit.
pub const SHORT_DOMAIN_PATTERN: &'static str = r"^\|*[a-zA-Z0-9]";

/// The domain that a network rule begins with.
pub const DOMAIN_EXTRACT_PATTERN: &'static str = r"^\|*([^/\^\$]+)";

/// A text that begins with an address of four numbers.
pub const IP_ADDRESS_PATTERN: &'static str = r"^\d+\.\d+\.\d+\.\d+";

/// A lower-case ASCII letter.
pub open spec fn is_lower(c: char) -> bool {
    'a' <= c && c <= 'z'
}

/// A network rule without the `||` or `|` it begins with.
pub open spec fn without_pipes(line: Seq<char>) -> Seq<char> {
    if is_prefix(line, "||"@) {
        line.skip(2)
    } else if is_prefix(line, "|"@) {
        line.skip(1)
    } else {
        line
    }
}

/// What stands behind the first character of a rule without its pipes,
/// without the `^` at its end, if there is one.
pub open spec fn name_behind_dot(line: Seq<char>) -> Seq<char> {
    let t = without_pipes(line).skip(1);
    if t.len() >= 1 && t.last() == '^' {
        t.drop_last()
    } else {
        t
    }
}

/// Every character of `s` is a lower-case ASCII letter.
pub open spec fn all_lower(s: Seq<char>) -> bool {
    forall|i: int| 0 <= i < s.len() ==> is_lower(#[trigger] s[i])
}

/// A rule that names nothing but a top-level domain: after `||` or `|`, if
/// any, a dot, two or more lower-case ASCII letters and, if any, one `^`.
pub open spec fn tld_only(line: Seq<char>) -> bool {
    let s = without_pipes(line);
    s.len() >= 1 && s[0] == '.' && name_behind_dot(line).len() >= 2 && all_lower(
        name_behind_dot(line),
    )
}

/// Whether `line` names nothing but a top-level domain.
pub fn is_tld_only(line: &str) -> (b: bool)
    ensures
        b == tld_only(line@),
{
    let l = chars_of(line);
    let n = l.len();
    proof {
        reveal_strlit("||");
        reveal_strlit("|");
    }
    let skip: usize = if starts_with_str(&l, "||") {
        2
    } else if starts_with_str(&l, "|") {
        1
    } else {
        0
    };
    if n - skip < 1 || l[skip] != '.' {
        return false;
    }
    let end: usize = if n - skip >= 2 && l[n - 1] == '^' {
        n - 1
    } else {
        n
    };
    let ghost name = name_behind_dot(line@);
    if end - (skip + 1) < 2 {
        return false;
    }
    let mut i: usize = skip + 1;
    while i < end
        invariant
            skip + 1 <= i <= end <= n,
            n == l.len(),
            name == l@.subrange(skip + 1, end as int),
            name == name_behind_dot(line@),
            forall|k: int| skip + 1 <= k < i ==> is_lower(#[trigger] l@[k]),
        decreases end - i,
    {
        if !('a' <= l[i] && l[i] <= 'z') {
            assert(name[i - (skip + 1)] == l@[i as int]);
            return false;
        }
        i += 1;
    }
    true
}

/// Whether `line` is an entry of a hosts file.
pub fn is_localhost_entry(line: &str) -> (b: bool)
    ensures
        b == regex_is_match(LOCALHOST_PATTERN@, line@),
{
    is_match(LOCALHOST_PATTERN, line)
}

/// The host that an entry of a hosts file names.
pub open spec fn host_of(line: Seq<char>) -> Option<Seq<char>> {
    match regex_captures(LOCALHOST_PATTERN@, line) {
        Some(groups) => Some(group_text(groups, 2)),
        None => None,
    }
}

/// The host that `line` names, if it is an entry of a hosts file.
pub fn localhost_host(line: &str) -> (r: Option<String>)
    ensures
        match r {
            Some(h) => host_of(line@) == Some(h@),
            None => host_of(line@) is None,
        },
{
    match captures(LOCALHOST_PATTERN, line) {
        Some(groups) => Some(string_of(&group(&groups, 2))),
        None => None,
    }
}

/// `line` begins with one of `marks`.
pub open spec fn begins_with_any(line: Seq<char>, marks: Seq<String>) -> bool {
    exists|i: int| 0 <= i < marks.len() && is_prefix(line, (#[trigger] marks[i])@)
}

/// A comment: a line that begins with one of the comment marks; in a hosts
/// file, a line that begins with `#`, unless `#` is a comment mark itself.
pub open spec fn is_comment(line: Seq<char>, config: SortConfig) -> bool {
    begins_with_any(line, config.comment_chars@) || (config.localhost && is_prefix(line, "#"@)
        && !strings(config.comment_chars@).contains("#"@))
}

/// A network rule that begins with a scheme or a known prefix, whose domain
/// is not looked at.
pub open spec fn scheme_rule(line: Seq<char>) -> bool {
    is_prefix(line, "|javascript"@) || is_prefix(line, "|data:"@) || is_prefix(line, "|dddata:"@)
        || is_prefix(line, "|about:"@) || is_prefix(line, "|blob:"@) || is_prefix(line, "|http"@)
        || is_prefix(line, "||edge-client"@)
}

/// The domain that a network rule begins with.
pub open spec fn leading_domain(line: Seq<char>) -> Option<Seq<char>> {
    match regex_captures(DOMAIN_EXTRACT_PATTERN@, line) {
        Some(groups) => Some(group_text(groups, 1)),
        None => None,
    }
}

/// The domain for which a short rule is dropped: the rule has seven bytes
/// or fewer and begins with a letter or digit, and its domain is not the
/// one that is exempt.
pub open spec fn short_domain(line: Seq<char>, config: SortConfig) -> Option<Seq<char>> {
    if !config.disable_domain_limit && byte_len(line) <= 7 && regex_is_match(
        SHORT_DOMAIN_PATTERN@,
        line,
    ) {
        match leading_domain(line) {
            Some(d) => if d == "a.sampl"@ {
                None
            } else {
                Some(d)
            },
            None => None,
        }
    } else {
        None
    }
}

/// The domain for which a network rule is dropped because it has no dot:
/// the rule begins with `|`, not with a scheme, and its domain is no
/// address, has no wildcard and no dot, and does not begin with `~`.
pub open spec fn undotted_domain(line: Seq<char>, config: SortConfig) -> Option<Seq<char>> {
    if is_prefix(line, "|"@) && !scheme_rule(line) {
        match leading_domain(line) {
            Some(d) => if !config.ignore_dot_domains && !is_prefix(d, "["@) && !regex_is_match(
                IP_ADDRESS_PATTERN@,
                d,
            ) && !d.contains('*') && !d.contains('.') && !is_prefix(d, "~"@) {
                Some(d)
            } else {
                None
            },
            None => None,
        }
    } else {
        None
    }
}

/// The cosmetic pattern that a run goes by.
pub open spec fn element_pattern(config: SortConfig) -> Seq<char> {
    if config.alt_sort {
        ELEMENT_PATTERN@
    } else {
        PLAIN_ELEMENT_PATTERN@
    }
}

/// What a line of a list is.
pub enum FilterLine {
    /// An empty line.
    Blank,
    /// A comment.
    Comment,
    /// A directive that includes another list.
    Directive,
    /// A header between `[` and `]`.
    SectionHeader,
    /// In a hosts file, a line that is no entry.
    NotAnEntry,
    /// An entry of a hosts file.
    LocalhostEntry { ip: Seq<char>, host: Seq<char> },
    /// A line of fewer than three bytes.
    TooShort,
    /// A cosmetic rule with modifiers in front, which is kept as it is.
    Modified,
    /// A cosmetic rule whose domain is a regular expression, which is kept
    /// as it is.
    RegexElementHiding,
    /// A cosmetic rule.
    ElementHiding { domains: Seq<char>, separator: Seq<char>, selector: Seq<char> },
    /// A network rule of seven bytes or fewer.
    ShortDomain { domain: Seq<char> },
    /// A network rule whose domain has no dot.
    UndottedDomain { domain: Seq<char> },
    /// A network rule that names nothing but a top-level domain.
    TldOnlyJunk,
    /// A network rule.
    NetworkRule,
}

/// What a line of a list is, as executable code holds it.
pub enum Classified {
    Blank,
    Comment,
    Directive,
    SectionHeader,
    NotAnEntry,
    LocalhostEntry { ip: Vec<char>, host: Vec<char> },
    TooShort,
    Modified,
    RegexElementHiding,
    ElementHiding { domains: Vec<char>, separator: Vec<char>, selector: Vec<char> },
    ShortDomain { domain: Vec<char> },
    UndottedDomain { domain: Vec<char> },
    TldOnlyJunk,
    NetworkRule,
}

impl View for Classified {
    type V = FilterLine;

    open spec fn view(&self) -> FilterLine {
        match self {
            Classified::Blank => FilterLine::Blank,
            Classified::Comment => FilterLine::Comment,
            Classified::Directive => FilterLine::Directive,
            Classified::SectionHeader => FilterLine::SectionHeader,
            Classified::NotAnEntry => FilterLine::NotAnEntry,
            Classified::LocalhostEntry { ip, host } => FilterLine::LocalhostEntry {
                ip: ip@,
                host: host@,
            },
            Classified::TooShort => FilterLine::TooShort,
            Classified::Modified => FilterLine::Modified,
            Classified::RegexElementHiding => FilterLine::RegexElementHiding,
            Classified::ElementHiding { domains, separator, selector } => FilterLine::ElementHiding {
                domains: domains@,
                separator: separator@,
                selector: selector@,
            },
            Classified::ShortDomain { domain } => FilterLine::ShortDomain { domain: domain@ },
            Classified::UndottedDomain { domain } => FilterLine::UndottedDomain {
                domain: domain@,
            },
            Classified::TldOnlyJunk => FilterLine::TldOnlyJunk,
            Classified::NetworkRule => FilterLine::NetworkRule,
        }
    }
}

/// What a line that is no cosmetic rule is: a network rule, unless it is
/// short, its domain has no dot, or it names nothing but a top-level
/// domain.
pub open spec fn network_class(line: Seq<char>, config: SortConfig) -> FilterLine {
    if short_domain(line, config) is Some {
        FilterLine::ShortDomain { domain: short_domain(line, config)->0 }
    } else if undotted_domain(line, config) is Some {
        FilterLine::UndottedDomain { domain: undotted_domain(line, config)->0 }
    } else if tld_only(line) {
        FilterLine::TldOnlyJunk
    } else {
        FilterLine::NetworkRule
    }
}

/// What the line `line`, without white space around it, is.
pub open spec fn line_class(line: Seq<char>, config: SortConfig) -> FilterLine {
    if line.len() == 0 {
        FilterLine::Blank
    } else if is_comment(line, config) {
        FilterLine::Comment
    } else if is_prefix(line, "%include"@) {
        FilterLine::Directive
    } else if is_prefix(line, "["@) && is_suffix(line, "]"@) {
        FilterLine::SectionHeader
    } else if config.localhost {
        match regex_captures(LOCALHOST_PATTERN@, line) {
            Some(groups) => FilterLine::LocalhostEntry {
                ip: group_text(groups, 1),
                host: group_text(groups, 2),
            },
            None => FilterLine::NotAnEntry,
        }
    } else if byte_len(line) < 3 {
        FilterLine::TooShort
    } else if is_prefix(line, "[$"@) {
        FilterLine::Modified
    } else if regex_is_match(REGEX_ELEMENT_PATTERN@, line) {
        FilterLine::RegexElementHiding
    } else {
        match regex_captures(element_pattern(config), line) {
            Some(groups) => FilterLine::ElementHiding {
                domains: group_text(groups, 1),
                separator: group_text(groups, 2),
                selector: group_text(groups, 3),
            },
            None => network_class(line, config),
        }
    }
}

fn begins_with_mark(line: &Vec<char>, marks: &[String]) -> (b: bool)
    ensures
        b == begins_with_any(line@, marks@),
{
    let mut i: usize = 0;
    while i < marks.len()
        invariant
            i <= marks.len(),
            forall|k: int| 0 <= k < i ==> !is_prefix(line@, (#[trigger] marks@[k])@),
        decreases marks.len() - i,
    {
        if starts_with(line, &chars_of(marks[i].as_str())) {
            return true;
        }
        i += 1;
    }
    false
}

fn has_hash_mark(marks: &[String]) -> (b: bool)
    ensures
        b == strings(marks@).contains("#"@),
{
    let mut i: usize = 0;
    while i < marks.len()
        invariant
            i <= marks.len(),
            forall|k: int| 0 <= k < i ==> #[trigger] strings(marks@)[k] != "#"@,
        decreases marks.len() - i,
    {
        if same_str(&chars_of(marks[i].as_str()), "#") {
            assert(strings(marks@)[i as int] == "#"@);
            return true;
        }
        i += 1;
    }
    false
}

/// Whether a line is a comment.
pub fn is_comment_line(line: &Vec<char>, config: &SortConfig) -> (b: bool)
    ensures
        b == is_comment(line@, *config),
{
    if begins_with_mark(line, config.comment_chars) {
        return true;
    }
    config.localhost && starts_with_str(line, "#") && !has_hash_mark(config.comment_chars)
}

fn is_scheme_rule(line: &Vec<char>) -> (b: bool)
    ensures
        b == scheme_rule(line@),
{
    starts_with_str(line, "|javascript") || starts_with_str(line, "|data:") || starts_with_str(
        line,
        "|dddata:",
    ) || starts_with_str(line, "|about:") || starts_with_str(line, "|blob:") || starts_with_str(
        line,
        "|http",
    ) || starts_with_str(line, "||edge-client")
}

fn leading_domain_of(text: &str) -> (r: Option<Vec<char>>)
    ensures
        match r {
            Some(d) => leading_domain(text@) == Some(d@),
            None => leading_domain(text@) is None,
        },
{
    match captures(DOMAIN_EXTRACT_PATTERN, text) {
        Some(groups) => Some(group(&groups, 1)),
        None => None,
    }
}

/// The domain for which a short rule is dropped, given whether the rule
/// begins with a letter or digit and the domain it begins with.
pub fn short_domain_of(
    line: &Vec<char>,
    begins_plain: bool,
    domain: Option<Vec<char>>,
    config: &SortConfig,
) -> (r: Option<Vec<char>>)
    ensures
        match r {
            Some(d) => !config.disable_domain_limit && byte_len(line@) <= 7 && begins_plain
                && domain == Some(d) && d@ != "a.sampl"@,
            None => !(!config.disable_domain_limit && byte_len(line@) <= 7 && begins_plain
                && domain is Some && domain->0@ != "a.sampl"@),
        },
{
    if config.disable_domain_limit || !byte_len_below(line, 8) || !begins_plain {
        return None;
    }
    match domain {
        Some(d) => if same_str(&d, "a.sampl") {
            None
        } else {
            Some(d)
        },
        None => None,
    }
}

/// The domain for which a network rule is dropped because it has no dot,
/// given the domain it begins with and whether that is an address.
pub fn undotted_domain_of(
    line: &Vec<char>,
    domain: Option<Vec<char>>,
    is_address: bool,
    config: &SortConfig,
) -> (r: Option<Vec<char>>)
    ensures
        match r {
            Some(d) => is_prefix(line@, "|"@) && !scheme_rule(line@) && domain == Some(d)
                && !config.ignore_dot_domains && !is_prefix(d@, "["@) && !is_address
                && !d@.contains('*') && !d@.contains('.') && !is_prefix(d@, "~"@),
            None => !(is_prefix(line@, "|"@) && !scheme_rule(line@) && domain is Some
                && !config.ignore_dot_domains && !is_prefix(domain->0@, "["@) && !is_address
                && !domain->0@.contains('*') && !domain->0@.contains('.') && !is_prefix(
                domain->0@,
                "~"@,
            )),
        },
{
    if !starts_with_str(line, "|") || is_scheme_rule(line) {
        return None;
    }
    match domain {
        Some(d) => if !config.ignore_dot_domains && !starts_with_str(&d, "[") && !is_address
            && !contains_char(&d, '*') && !contains_char(&d, '.') && !starts_with_str(&d, "~") {
            Some(d)
        } else {
            None
        },
        None => None,
    }
}

fn classify_network(line: &Vec<char>, text: &str, config: &SortConfig) -> (c: Classified)
    requires
        text@ == line@,
    ensures
        c@ == network_class(line@, *config),
{
    let begins_plain = is_match(SHORT_DOMAIN_PATTERN, text);
    match short_domain_of(line, begins_plain, leading_domain_of(text), config) {
        Some(domain) => {
            return Classified::ShortDomain { domain };
        },
        None => {},
    }
    let domain = leading_domain_of(text);
    let is_address = match &domain {
        Some(d) => is_match(IP_ADDRESS_PATTERN, string_of(d).as_str()),
        None => false,
    };
    match undotted_domain_of(line, domain, is_address, config) {
        Some(domain) => {
            return Classified::UndottedDomain { domain };
        },
        None => {},
    }
    if is_tld_only(text) {
        Classified::TldOnlyJunk
    } else {
        Classified::NetworkRule
    }
}

/// Tells what a line, which has no white space around it, is.
pub fn classify(line: &Vec<char>, config: &SortConfig) -> (c: Classified)
    ensures
        c@ == line_class(line@, *config),
{
    if line.len() == 0 {
        return Classified::Blank;
    }
    if is_comment_line(line, config) {
        return Classified::Comment;
    }
    if starts_with_str(line, "%include") {
        return Classified::Directive;
    }
    if starts_with_str(line, "[") && ends_with_str(line, "]") {
        return Classified::SectionHeader;
    }
    let text = string_of(line);
    if config.localhost {
        return match captures(LOCALHOST_PATTERN, text.as_str()) {
            Some(groups) => Classified::LocalhostEntry {
                ip: group(&groups, 1),
                host: group(&groups, 2),
            },
            None => Classified::NotAnEntry,
        };
    }
    if byte_len_below(line, 3) {
        return Classified::TooShort;
    }
    if starts_with_str(line, "[$") {
        return Classified::Modified;
    }
    if is_match(REGEX_ELEMENT_PATTERN, text.as_str()) {
        return Classified::RegexElementHiding;
    }
    let found = if config.alt_sort {
        captures(ELEMENT_PATTERN, text.as_str())
    } else {
        captures(PLAIN_ELEMENT_PATTERN, text.as_str())
    };
    match found {
        Some(groups) => Classified::ElementHiding {
            domains: group(&groups, 1),
            separator: group(&groups, 2),
            selector: group(&groups, 3),
        },
        None => classify_network(line, text.as_str(), config),
    }
}

} // verus!
