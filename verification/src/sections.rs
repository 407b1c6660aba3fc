//! The driver: splits a list into sections and tidies, deduplicates, sorts
//! and merges each of them.
//!
//! A section is a run of rules between two boundaries: comments, headers,
//! directives and, where they are kept, empty lines. Each rule is read,
//! tidied and put in the section; at a boundary the section is written out,
//! without repeated rules, sorted, and with its mergeable rules merged.

use crate::classify::{classify, host_of, line_class, localhost_host, Classified, FilterLine};
use crate::combine::{
    combine_noting, combined, merges, ELEMENT_DOMAIN_PATTERN, FILTER_DOMAIN_PATTERN,
};
use crate::cosmetic::{domain_warnings, element_tidy, tidied_element};
use crate::diff::{unified, unified_diff};
use crate::hastext::{has_text_merged, has_text_merges, merge_noting};
use crate::network::{filter_tidy, filter_warnings, tidied_filter};
use crate::order::{carried, entries, sort, sorted, Entry, Keyed};
use crate::pattern::{regex_replace, replace};
use crate::text::{
    append, chars_of, copy, line_ending, line_ending_of, lines, lowercase, rows, string_of,
    strings, strings_of, texts, to_lowercase, trim, trimmed,
};
use crate::typos::{fix_all_typos, fix_chain, MAX_ROUNDS};
use crate::unique::{first_occurrences, repeats, unique_noting};
use vstd::prelude::*;

verus! {

/// The domain list of a cosmetic rule and `##` or `#@#`.
pub const PLAIN_ELEMENT_DOMAIN_PATTERN: &'static str = r#"^[^/|@"!]*?#@?#"#;

/// The number of rules at the start of a section that decide of what kind
/// the section is.
pub const CHECK_LINES: usize = 10;

/// The switches of one run over one list.
pub struct SortConfig<'a> {
    /// Rewrite uBlock Origin's option names into Adblock Plus's.
    pub convert_ubo: bool,
    /// Keep the rules of a section in the order they came in.
    pub no_sort: bool,
    /// Recognise every kind of cosmetic separator, also for sorting.
    pub alt_sort: bool,
    /// The list is a hosts file.
    pub localhost: bool,
    /// A line that begins with one of these is a comment.
    pub comment_chars: &'a [String],
    /// Keep a copy of a file before it is rewritten.
    pub backup: bool,
    /// Keep empty lines; each ends a section.
    pub keep_empty_lines: bool,
    /// Keep network rules whose domain has no dot.
    pub ignore_dot_domains: bool,
    /// Keep network rules of seven bytes or fewer.
    pub disable_domain_limit: bool,
    /// Repair typos in the rules of a section.
    pub fix_typos: bool,
    /// Say little.
    pub quiet: bool,
    /// Report what would change and change nothing.
    pub dry_run: bool,
}

/// What a line is read as.
pub enum Kind {
    /// An empty line.
    Blank,
    /// A comment, a header or a directive.
    Boundary,
    /// A line that is left out.
    Dropped,
    /// A rule that is kept as it is and counts as neither kind.
    Passed(Seq<char>),
    /// A cosmetic rule, tidied.
    Cosmetic(Seq<char>),
    /// A network rule, tidied.
    Network(Seq<char>),
}

/// What a line is read as, as executable code holds it.
pub enum Line {
    Blank,
    Boundary,
    Dropped,
    Passed(Vec<char>),
    Cosmetic(Vec<char>),
    Network(Vec<char>),
}

impl View for Line {
    type V = Kind;

    open spec fn view(&self) -> Kind {
        match self {
            Line::Blank => Kind::Blank,
            Line::Boundary => Kind::Boundary,
            Line::Dropped => Kind::Dropped,
            Line::Passed(t) => Kind::Passed(t@),
            Line::Cosmetic(t) => Kind::Cosmetic(t@),
            Line::Network(t) => Kind::Network(t@),
        }
    }
}

/// What a line is read as, and what reading it warns of.
pub struct Reading {
    pub kind: Kind,
    pub warnings: Seq<Seq<char>>,
}

/// A line that is left out, with the one warning that says so.
pub open spec fn dropped(warning: Seq<char>) -> Reading {
    Reading { kind: Kind::Dropped, warnings: seq![warning] }
}

/// A reading that warns of nothing.
pub open spec fn quiet(kind: Kind) -> Reading {
    Reading { kind, warnings: Seq::<Seq<char>>::empty() }
}

/// A tidied rule after its typos are repaired, where that is asked for.
pub open spec fn repaired(rule: Seq<char>, config: SortConfig) -> Seq<char> {
    if config.fix_typos {
        fix_chain(rule, MAX_ROUNDS as nat).0
    } else {
        rule
    }
}

/// The note of a repair: the rule as it was and as it is, where repairing
/// it was asked for and changed it.
pub open spec fn repair_note(rule: Seq<char>, config: SortConfig) -> Seq<Seq<char>> {
    if config.fix_typos && fix_chain(rule, MAX_ROUNDS as nat).1.len() > 0 {
        seq![rule + " -> "@ + fix_chain(rule, MAX_ROUNDS as nat).0]
    } else {
        Seq::<Seq<char>>::empty()
    }
}

/// What a run changed, as a value of the model: the repairs of typos, the
/// rules merged for their domains, the rules merged for the text they look
/// for, and the repeated rules that were removed.
pub struct Changes {
    pub typos_fixed: Seq<Seq<char>>,
    pub domains_combined: Seq<Seq<char>>,
    pub has_text_merged: Seq<Seq<char>>,
    pub duplicates_removed: Seq<Seq<char>>,
}

/// What a run changed.
pub struct SortChanges {
    /// Each rule whose typos were repaired, as it was and as it is.
    pub typos_fixed: Vec<String>,
    /// Each rule that stands for two rules that differed in their domains.
    pub domains_combined: Vec<String>,
    /// Each rule that stands for rules that differed in the text they look
    /// for.
    pub has_text_merged: Vec<String>,
    /// Each rule that was removed because the section held it already.
    pub duplicates_removed: Vec<String>,
}

impl View for SortChanges {
    type V = Changes;

    open spec fn view(&self) -> Changes {
        Changes {
            typos_fixed: strings(self.typos_fixed@),
            domains_combined: strings(self.domains_combined@),
            has_text_merged: strings(self.has_text_merged@),
            duplicates_removed: strings(self.duplicates_removed@),
        }
    }
}

impl SortChanges {
    /// No change.
    pub fn new() -> (c: SortChanges)
        ensures
            c@ == no_changes(),
    {
        let c = SortChanges {
            typos_fixed: Vec::new(),
            domains_combined: Vec::new(),
            has_text_merged: Vec::new(),
            duplicates_removed: Vec::new(),
        };
        assert(c@.typos_fixed =~= no_changes().typos_fixed);
        c
    }
}

/// No change.
pub open spec fn no_changes() -> Changes {
    Changes {
        typos_fixed: Seq::<Seq<char>>::empty(),
        domains_combined: Seq::<Seq<char>>::empty(),
        has_text_merged: Seq::<Seq<char>>::empty(),
        duplicates_removed: Seq::<Seq<char>>::empty(),
    }
}

/// The changes of `a`, then those of `b`.
pub open spec fn plus(a: Changes, b: Changes) -> Changes {
    Changes {
        typos_fixed: a.typos_fixed + b.typos_fixed,
        domains_combined: a.domains_combined + b.domains_combined,
        has_text_merged: a.has_text_merged + b.has_text_merged,
        duplicates_removed: a.duplicates_removed + b.duplicates_removed,
    }
}

/// What the line `line`, without white space around it, is read as. Empty
/// lines and boundaries are told apart from rules. Entries of a hosts file
/// and rules that are kept as they are go into the section unchanged.
/// Cosmetic and network rules are tidied. Junk is dropped, with a warning
/// unless it is merely too short.
pub open spec fn reading(line: Seq<char>, config: SortConfig) -> Reading {
    match line_class(line, config) {
        FilterLine::Blank => quiet(Kind::Blank),
        FilterLine::Comment => quiet(Kind::Boundary),
        FilterLine::Directive => quiet(Kind::Boundary),
        FilterLine::SectionHeader => quiet(Kind::Boundary),
        FilterLine::NotAnEntry => dropped("Removed invalid localhost entry: "@ + line),
        FilterLine::LocalhostEntry { ip, host } => quiet(Kind::Passed(line)),
        FilterLine::TooShort => quiet(Kind::Dropped),
        FilterLine::Modified => quiet(Kind::Passed(line)),
        FilterLine::RegexElementHiding => quiet(Kind::Passed(line)),
        FilterLine::ElementHiding { domains, separator, selector } => Reading {
            kind: Kind::Cosmetic(tidied_element(domains, separator, selector)),
            warnings: domain_warnings(lowercase(domains), separator, selector),
        },
        FilterLine::ShortDomain { domain } => dropped(
            "Skipped short domain rule: "@ + line + " (domain: "@ + domain + ")"@,
        ),
        FilterLine::UndottedDomain { domain } => dropped(
            "Skipped network rule without dot in domain: "@ + line + " (domain: "@ + domain
                + ")"@,
        ),
        FilterLine::TldOnlyJunk => dropped("Removed overly broad TLD-only rule: "@ + line),
        FilterLine::NetworkRule => Reading {
            kind: Kind::Network(tidied_filter(line, config.convert_ubo)),
            warnings: filter_warnings(line, config.convert_ubo),
        },
    }
}

/// The key that an entry of a hosts file is sorted by: its host in lower
/// case; for any other line, the line in lower case.
pub open spec fn host_key() -> spec_fn(Seq<char>) -> Seq<char> {
    |line: Seq<char>|
        match host_of(line) {
            Some(h) => lowercase(h),
            None => lowercase(line),
        }
}

/// The key that a cosmetic rule is sorted by: the rule without what
/// `pattern` matches in it, its domains and separator.
pub open spec fn selector_key(pattern: Seq<char>) -> spec_fn(Seq<char>) -> Seq<char> {
    |line: Seq<char>| regex_replace(pattern, line, Seq::<char>::empty())
}

/// The key that a network rule is sorted by: the rule in lower case.
pub open spec fn lower_key() -> spec_fn(Seq<char>) -> Seq<char> {
    |line: Seq<char>| lowercase(line)
}

/// The lines with their keys.
pub open spec fn keyed_lines(lines: Seq<Seq<char>>, key: spec_fn(Seq<char>) -> Seq<char>) -> Seq<
    Entry,
> {
    lines.map_values(|l: Seq<char>| Entry { key: key(l), rank: 0, text: l })
}

/// The lines sorted by key; lines with the same key keep their order.
pub open spec fn sorted_by(lines: Seq<Seq<char>>, key: spec_fn(Seq<char>) -> Seq<char>) -> Seq<
    Seq<char>,
> {
    carried(sorted(keyed_lines(lines, key)))
}

/// The pattern whose match is left out of a cosmetic rule's sort key.
pub open spec fn sort_pattern(config: SortConfig) -> Seq<char> {
    if config.alt_sort {
        ELEMENT_DOMAIN_PATTERN@
    } else {
        PLAIN_ELEMENT_DOMAIN_PATTERN@
    }
}

/// What is written out for a section that holds `elements` cosmetic and
/// `filters` network rules among the first it took in. Repeated rules go.
/// In a hosts file the entries are sorted by host. A section with more
/// cosmetic than network rules is sorted by selector, its rules that differ
/// only in their domains are merged, and so are those that differ only in
/// the text they look for. Any other section is sorted as lower-case text,
/// and its rules that differ only in their domains are merged. Nothing is
/// sorted where `no_sort` is set.
pub open spec fn flushed(section: Seq<Seq<char>>, elements: nat, filters: nat, config: SortConfig)
    -> Seq<Seq<char>> {
    let rules = ordered(section, elements, filters, config);
    if config.localhost {
        rules
    } else if elements > filters {
        has_text_merged(combined(rules, ELEMENT_DOMAIN_PATTERN@, ','))
    } else {
        combined(rules, FILTER_DOMAIN_PATTERN@, '|')
    }
}

/// The rules of a section, each once, in the order in which they are
/// compared for merging.
pub open spec fn ordered(section: Seq<Seq<char>>, elements: nat, filters: nat, config: SortConfig)
    -> Seq<Seq<char>> {
    let once = first_occurrences(section);
    if config.no_sort {
        once
    } else if config.localhost {
        sorted_by(once, host_key())
    } else if elements > filters {
        sorted_by(once, selector_key(sort_pattern(config)))
    } else {
        sorted_by(once, lower_key())
    }
}

/// What writing out a section changes: the repeated rules that go, and the
/// merged rules that are made.
pub open spec fn flush_changes(
    section: Seq<Seq<char>>,
    elements: nat,
    filters: nat,
    config: SortConfig,
) -> Changes {
    let rules = ordered(section, elements, filters, config);
    Changes {
        typos_fixed: Seq::<Seq<char>>::empty(),
        domains_combined: if config.localhost {
            Seq::<Seq<char>>::empty()
        } else if elements > filters {
            merges(rules, ELEMENT_DOMAIN_PATTERN@, ',')
        } else {
            merges(rules, FILTER_DOMAIN_PATTERN@, '|')
        },
        has_text_merged: if !config.localhost && elements > filters {
            has_text_merges(combined(rules, ELEMENT_DOMAIN_PATTERN@, ','))
        } else {
            Seq::<Seq<char>>::empty()
        },
        duplicates_removed: repeats(section),
    }
}

/// How far a run has come: what it has written out, the section it is
/// filling, and how many rules of each kind it has counted in the section.
pub struct Progress {
    pub out: Seq<Seq<char>>,
    pub section: Seq<Seq<char>>,
    pub checked: nat,
    pub filters: nat,
    pub elements: nat,
}

/// A run before its first line.
pub open spec fn start() -> Progress {
    Progress {
        out: Seq::<Seq<char>>::empty(),
        section: Seq::<Seq<char>>::empty(),
        checked: 1,
        filters: 0,
        elements: 0,
    }
}

/// The run after its section is written out.
pub open spec fn flush(p: Progress, config: SortConfig) -> Progress {
    Progress {
        out: p.out + flushed(p.section, p.elements, p.filters, config),
        section: Seq::<Seq<char>>::empty(),
        checked: 1,
        filters: 0,
        elements: 0,
    }
}

/// The run after one more line. An empty line is skipped, or, where empty
/// lines are kept, ends the section and is written out. A boundary ends
/// the section and is written out. A rule goes into the section; the first
/// `CHECK_LINES` cosmetic and network rules of a section are counted.
pub open spec fn step(p: Progress, raw: Seq<char>, config: SortConfig) -> Progress {
    let line = trimmed(raw);
    let counted = p.checked <= CHECK_LINES;
    match reading(line, config).kind {
        Kind::Blank => if config.keep_empty_lines {
            Progress { out: flush(p, config).out.push(Seq::<char>::empty()), ..flush(p, config) }
        } else {
            p
        },
        Kind::Boundary => Progress { out: flush(p, config).out.push(line), ..flush(p, config) },
        Kind::Dropped => p,
        Kind::Passed(rule) => Progress { section: p.section.push(rule), ..p },
        Kind::Cosmetic(rule) => Progress {
            section: p.section.push(repaired(rule, config)),
            checked: if counted {
                p.checked + 1
            } else {
                p.checked
            },
            elements: if counted {
                p.elements + 1
            } else {
                p.elements
            },
            ..p
        },
        Kind::Network(rule) => Progress {
            section: p.section.push(repaired(rule, config)),
            checked: if counted {
                p.checked + 1
            } else {
                p.checked
            },
            filters: if counted {
                p.filters + 1
            } else {
                p.filters
            },
            ..p
        },
    }
}

/// The run after the lines of `lines`, in order.
pub open spec fn progress(lines: Seq<Seq<char>>, config: SortConfig) -> Progress
    decreases lines.len(),
{
    if lines.len() == 0 {
        start()
    } else {
        step(progress(lines.drop_last(), config), lines.last(), config)
    }
}

/// The warnings that reading the lines of `lines` gives, in order.
pub open spec fn run_warnings(lines: Seq<Seq<char>>, config: SortConfig) -> Seq<Seq<char>>
    decreases lines.len(),
{
    if lines.len() == 0 {
        lines
    } else {
        run_warnings(lines.drop_last(), config) + reading(trimmed(lines.last()), config).warnings
    }
}

/// What one more line changes: the repair of its typos, and, where the
/// line ends a section, what writing out the section changes.
pub open spec fn step_changes(p: Progress, raw: Seq<char>, config: SortConfig) -> Changes {
    let written = flush_changes(p.section, p.elements, p.filters, config);
    match reading(trimmed(raw), config).kind {
        Kind::Blank => if config.keep_empty_lines {
            written
        } else {
            no_changes()
        },
        Kind::Boundary => written,
        Kind::Dropped => no_changes(),
        Kind::Passed(rule) => no_changes(),
        Kind::Cosmetic(rule) => Changes { typos_fixed: repair_note(rule, config), ..no_changes() },
        Kind::Network(rule) => Changes { typos_fixed: repair_note(rule, config), ..no_changes() },
    }
}

/// What the lines of `lines` change, in order, before the last section is
/// written out.
pub open spec fn run_changes(lines: Seq<Seq<char>>, config: SortConfig) -> Changes
    decreases lines.len(),
{
    if lines.len() == 0 {
        no_changes()
    } else {
        plus(
            run_changes(lines.drop_last(), config),
            step_changes(progress(lines.drop_last(), config), lines.last(), config),
        )
    }
}

/// What a run over a list changes.
pub open spec fn sort_changes(lines: Seq<Seq<char>>, config: SortConfig) -> Changes {
    let p = progress(lines, config);
    plus(run_changes(lines, config), flush_changes(p.section, p.elements, p.filters, config))
}

/// The lines of a list after a run over it.
pub open spec fn sorted_lines(lines: Seq<Seq<char>>, config: SortConfig) -> Seq<Seq<char>> {
    flush(progress(lines, config), config).out
}

fn warning(head: &str, line: &Vec<char>, domain: Option<&Vec<char>>) -> (w: String)
    ensures
        w@ == match domain {
            Some(d) => head@ + line@ + " (domain: "@ + d@ + ")"@,
            None => head@ + line@,
        },
{
    let mut m = chars_of(head);
    append(&mut m, line);
    match domain {
        Some(d) => {
            append(&mut m, &chars_of(" (domain: "));
            append(&mut m, d);
            append(&mut m, &chars_of(")"));
        },
        None => {},
    }
    string_of(&m)
}

fn repair(rule: &Vec<char>, config: &SortConfig, notes: &mut Vec<String>) -> (r: Vec<char>)
    ensures
        r@ == repaired(rule@, *config),
        strings(final(notes)@) == strings(old(notes)@) + repair_note(rule@, *config),
{
    if config.fix_typos {
        let fixed = fix_all_typos(string_of(rule).as_str());
        let r = chars_of(fixed.0.as_str());
        if fixed.1.len() > 0 {
            let mut note = copy(rule);
            append(&mut note, &chars_of(" -> "));
            append(&mut note, &r);
            notes.push(string_of(&note));
        }
        r
    } else {
        copy(rule)
    }
}

/// Reads one line, which has no white space around it: tells what it is
/// and tidies it where it is a rule; warns where it drops the line or a
/// part of it.
pub fn read_line(line: &Vec<char>, config: &SortConfig, warnings: &mut Vec<String>) -> (r: Line)
    ensures
        r@ == reading(line@, *config).kind,
        strings(final(warnings)@) == strings(old(warnings)@) + reading(line@, *config).warnings,
{
    match classify(line, config) {
        Classified::Blank => Line::Blank,
        Classified::Comment => Line::Boundary,
        Classified::Directive => Line::Boundary,
        Classified::SectionHeader => Line::Boundary,
        Classified::NotAnEntry => {
            warnings.push(warning("Removed invalid localhost entry: ", line, None));
            Line::Dropped
        },
        Classified::LocalhostEntry { ip, host } => Line::Passed(copy(line)),
        Classified::TooShort => Line::Dropped,
        Classified::Modified => Line::Passed(copy(line)),
        Classified::RegexElementHiding => Line::Passed(copy(line)),
        Classified::ElementHiding { domains, separator, selector } => {
            let tidied = element_tidy(
                string_of(&domains).as_str(),
                string_of(&separator).as_str(),
                string_of(&selector).as_str(),
                warnings,
            );
            Line::Cosmetic(chars_of(tidied.as_str()))
        },
        Classified::ShortDomain { domain } => {
            warnings.push(warning("Skipped short domain rule: ", line, Some(&domain)));
            Line::Dropped
        },
        Classified::UndottedDomain { domain } => {
            warnings.push(
                warning("Skipped network rule without dot in domain: ", line, Some(&domain)),
            );
            Line::Dropped
        },
        Classified::TldOnlyJunk => {
            warnings.push(warning("Removed overly broad TLD-only rule: ", line, None));
            Line::Dropped
        },
        Classified::NetworkRule => {
            let tidied = filter_tidy(string_of(line).as_str(), config.convert_ubo, warnings);
            Line::Network(chars_of(tidied.as_str()))
        },
    }
}

fn sort_with_keys(lines: &Vec<Vec<char>>, keys: Vec<Vec<char>>, Ghost(key): Ghost<
    spec_fn(Seq<char>) -> Seq<char>,
>) -> (out: Vec<Vec<char>>)
    requires
        keys.len() == lines.len(),
        forall|i: int| 0 <= i < lines.len() ==> (#[trigger] keys@[i])@ == key(lines@[i]@),
    ensures
        texts(out@) == sorted_by(texts(lines@), key),
{
    let mut list: Vec<Keyed> = Vec::new();
    let mut i: usize = 0;
    while i < lines.len()
        invariant
            i <= lines.len(),
            keys.len() == lines.len(),
            forall|k: int| 0 <= k < lines.len() ==> (#[trigger] keys@[k])@ == key(lines@[k]@),
            list.len() == i,
            forall|k: int|
                0 <= k < i ==> (#[trigger] list@[k])@ == (Entry {
                    key: key(lines@[k]@),
                    rank: 0,
                    text: lines@[k]@,
                }),
        decreases lines.len() - i,
    {
        list.push(Keyed { key: copy(&keys[i]), rank: 0, text: copy(&lines[i]) });
        i += 1;
    }
    assert(entries(list@) =~= keyed_lines(texts(lines@), key));
    let done = sort(&list);
    let mut out: Vec<Vec<char>> = Vec::new();
    let mut j: usize = 0;
    while j < done.len()
        invariant
            j <= done.len(),
            out.len() == j,
            forall|k: int| 0 <= k < j ==> (#[trigger] out@[k])@ == done@[k].text@,
        decreases done.len() - j,
    {
        out.push(copy(&done[j].text));
        j += 1;
    }
    out
}

fn sort_by_host(lines: &Vec<Vec<char>>) -> (out: Vec<Vec<char>>)
    ensures
        texts(out@) == sorted_by(texts(lines@), host_key()),
{
    let mut keys: Vec<Vec<char>> = Vec::new();
    let mut i: usize = 0;
    while i < lines.len()
        invariant
            i <= lines.len(),
            keys.len() == i,
            forall|k: int| 0 <= k < i ==> (#[trigger] keys@[k])@ == host_key()(lines@[k]@),
        decreases lines.len() - i,
    {
        let key = match localhost_host(string_of(&lines[i]).as_str()) {
            Some(h) => to_lowercase(&chars_of(h.as_str())),
            None => to_lowercase(&lines[i]),
        };
        keys.push(key);
        i += 1;
    }
    sort_with_keys(lines, keys, Ghost(host_key()))
}

fn sort_by_selector(lines: &Vec<Vec<char>>, pattern: &str) -> (out: Vec<Vec<char>>)
    ensures
        texts(out@) == sorted_by(texts(lines@), selector_key(pattern@)),
{
    let mut keys: Vec<Vec<char>> = Vec::new();
    let mut i: usize = 0;
    proof {
        reveal_strlit("");
    }
    while i < lines.len()
        invariant
            i <= lines.len(),
            keys.len() == i,
            ""@ == Seq::<char>::empty(),
            forall|k: int|
                0 <= k < i ==> (#[trigger] keys@[k])@ == selector_key(pattern@)(lines@[k]@),
        decreases lines.len() - i,
    {
        let key = replace(pattern, string_of(&lines[i]).as_str(), "");
        keys.push(chars_of(key.as_str()));
        i += 1;
    }
    sort_with_keys(lines, keys, Ghost(selector_key(pattern@)))
}

fn sort_by_lower(lines: &Vec<Vec<char>>) -> (out: Vec<Vec<char>>)
    ensures
        texts(out@) == sorted_by(texts(lines@), lower_key()),
{
    let mut keys: Vec<Vec<char>> = Vec::new();
    let mut i: usize = 0;
    while i < lines.len()
        invariant
            i <= lines.len(),
            keys.len() == i,
            forall|k: int| 0 <= k < i ==> (#[trigger] keys@[k])@ == lower_key()(lines@[k]@),
        decreases lines.len() - i,
    {
        keys.push(to_lowercase(&lines[i]));
        i += 1;
    }
    sort_with_keys(lines, keys, Ghost(lower_key()))
}

fn note_all(list: &mut Vec<String>, events: &Vec<Vec<char>>)
    ensures
        strings(final(list)@) == strings(old(list)@) + texts(events@),
{
    let ghost start = strings(list@);
    let mut i: usize = 0;
    while i < events.len()
        invariant
            i <= events.len(),
            strings(list@) == start + texts(events@).take(i as int),
        decreases events.len() - i,
    {
        let ghost before = list@;
        list.push(string_of(&events[i]));
        assert(strings(list@) =~= strings(before).push(events@[i as int]@));
        i += 1;
    }
}

/// Writes out a section: without repeated rules, sorted, and with its
/// mergeable rules merged. Notes the rules that it removes and the merged
/// rules that it makes.
pub fn flush_section(
    section: &Vec<Vec<char>>,
    elements: usize,
    filters: usize,
    config: &SortConfig,
    changes: &mut SortChanges,
) -> (out: Vec<Vec<char>>)
    ensures
        texts(out@) == flushed(texts(section@), elements as nat, filters as nat, *config),
        final(changes)@ == plus(
            old(changes)@,
            flush_changes(texts(section@), elements as nat, filters as nat, *config),
        ),
{
    let mut dropped: Vec<Vec<char>> = Vec::new();
    let mut merged: Vec<Vec<char>> = Vec::new();
    let mut fused: Vec<Vec<char>> = Vec::new();
    let once = unique_noting(section, &mut dropped);
    let rules = if config.no_sort {
        once
    } else if config.localhost {
        sort_by_host(&once)
    } else if elements > filters {
        if config.alt_sort {
            sort_by_selector(&once, ELEMENT_DOMAIN_PATTERN)
        } else {
            sort_by_selector(&once, PLAIN_ELEMENT_DOMAIN_PATTERN)
        }
    } else {
        sort_by_lower(&once)
    };
    let out = if config.localhost {
        rules
    } else if elements > filters {
        let joined = combine_noting(&rules, ELEMENT_DOMAIN_PATTERN, ',', &mut merged);
        merge_noting(&joined, &mut fused)
    } else {
        combine_noting(&rules, FILTER_DOMAIN_PATTERN, '|', &mut merged)
    };
    note_all(&mut changes.duplicates_removed, &dropped);
    note_all(&mut changes.domains_combined, &merged);
    note_all(&mut changes.has_text_merged, &fused);
    out
}

/// Adding no change changes nothing.
proof fn lemma_plus_nothing(a: Changes)
    ensures
        plus(a, no_changes()) == a,
        plus(no_changes(), a) == a,
{
}

/// Changes add up in either grouping.
proof fn lemma_plus_associative(a: Changes, b: Changes, c: Changes)
    ensures
        plus(plus(a, b), c) == plus(a, plus(b, c)),
{
    let l = plus(plus(a, b), c);
    let r = plus(a, plus(b, c));
    assert(l.typos_fixed =~= r.typos_fixed);
    assert(l.domains_combined =~= r.domains_combined);
    assert(l.has_text_merged =~= r.has_text_merged);
    assert(l.duplicates_removed =~= r.duplicates_removed);
}

/// Runs over the lines of a list: tidies each rule, and writes out each
/// section without repeated rules, sorted and merged. Comments, headers and
/// directives stay where they are. Warns of each rule, option or domain
/// that it drops or does not know.
pub fn sort_lines(lines: &Vec<String>, config: &SortConfig, warnings: &mut Vec<String>) -> (out:
    Vec<String>)
    ensures
        strings(out@) == sorted_lines(strings(lines@), *config),
        strings(final(warnings)@) == strings(old(warnings)@) + run_warnings(
            strings(lines@),
            *config,
        ),
{
    let mut changes = SortChanges::new();
    sort_lines_tracked(lines, config, warnings, &mut changes)
}

/// Runs over the lines of a list as `sort_lines` does, and notes what it
/// changes: the typos it repairs, the rules it merges and the repeated
/// rules it removes.
pub fn sort_lines_tracked(
    lines: &Vec<String>,
    config: &SortConfig,
    warnings: &mut Vec<String>,
    changes: &mut SortChanges,
) -> (out: Vec<String>)
    ensures
        strings(out@) == sorted_lines(strings(lines@), *config),
        strings(final(warnings)@) == strings(old(warnings)@) + run_warnings(
            strings(lines@),
            *config,
        ),
        final(changes)@ == plus(old(changes)@, sort_changes(strings(lines@), *config)),
{
    let ghost all = strings(lines@);
    let ghost heard = strings(warnings@);
    let ghost noted = changes@;
    let mut out: Vec<Vec<char>> = Vec::new();
    let mut section: Vec<Vec<char>> = Vec::new();
    let mut checked: usize = 1;
    let mut filters: usize = 0;
    let mut elements: usize = 0;
    let mut i: usize = 0;
    assert(texts(out@) =~= start().out && texts(section@) =~= start().section);
    proof {
        lemma_plus_nothing(noted);
    }
    while i < lines.len()
        invariant
            i <= lines.len(),
            all == strings(lines@),
            checked <= CHECK_LINES + 1,
            checked == 1 + filters + elements,
            progress(all.take(i as int), *config) == (Progress {
                out: texts(out@),
                section: texts(section@),
                checked: checked as nat,
                filters: filters as nat,
                elements: elements as nat,
            }),
            strings(warnings@) == heard + run_warnings(all.take(i as int), *config),
            changes@ == plus(noted, run_changes(all.take(i as int), *config)),
        decreases lines.len() - i,
    {
        let ghost p = progress(all.take(i as int), *config);
        let ghost out_before = out@;
        let ghost section_before = section@;
        let ghost changes_before = changes@;
        let ghost stepped = step_changes(p, lines@[i as int]@, *config);
        proof {
            assert(all.take(i + 1).drop_last() =~= all.take(i as int));
            lemma_plus_associative(noted, run_changes(all.take(i as int), *config), stepped);
            lemma_plus_nothing(changes_before);
        }
        let line = trim(&chars_of(lines[i].as_str()));
        let read = read_line(&line, config, warnings);
        match read {
            Line::Blank => {
                if config.keep_empty_lines {
                    let mut written = flush_section(&section, elements, filters, config, changes);
                    let ghost added = written@;
                    out.append(&mut written);
                    out.push(Vec::new());
                    section = Vec::new();
                    checked = 1;
                    filters = 0;
                    elements = 0;
                    assert(texts(out@) =~= (texts(out_before) + texts(added)).push(
                        Seq::<char>::empty(),
                    ));
                    assert(texts(section@) =~= Seq::<Seq<char>>::empty());
                }
            },
            Line::Boundary => {
                let mut written = flush_section(&section, elements, filters, config, changes);
                let ghost added = written@;
                out.append(&mut written);
                out.push(line);
                section = Vec::new();
                checked = 1;
                filters = 0;
                elements = 0;
                assert(texts(out@) =~= (texts(out_before) + texts(added)).push(line@));
                assert(texts(section@) =~= Seq::<Seq<char>>::empty());
            },
            Line::Dropped => {},
            Line::Passed(rule) => {
                section.push(rule);
                assert(texts(section@) =~= texts(section_before).push(rule@));
            },
            Line::Cosmetic(rule) => {
                let fixed = repair(&rule, config, &mut changes.typos_fixed);
                section.push(fixed);
                assert(texts(section@) =~= texts(section_before).push(fixed@));
                if checked <= CHECK_LINES {
                    elements += 1;
                    checked += 1;
                }
            },
            Line::Network(rule) => {
                let fixed = repair(&rule, config, &mut changes.typos_fixed);
                section.push(fixed);
                assert(texts(section@) =~= texts(section_before).push(fixed@));
                if checked <= CHECK_LINES {
                    filters += 1;
                    checked += 1;
                }
            },
        }
        i += 1;
    }
    assert(all.take(all.len() as int) =~= all);
    proof {
        let p = progress(all, *config);
        lemma_plus_associative(
            noted,
            run_changes(all, *config),
            flush_changes(p.section, p.elements, p.filters, *config),
        );
    }
    let mut written = flush_section(&section, elements, filters, config, changes);
    out.append(&mut written);
    strings_of(&out)
}

/// The text made of `lines`, each followed by `ending`.
pub open spec fn written(lines: Seq<Seq<char>>, ending: Seq<char>) -> Seq<char>
    decreases lines.len(),
{
    if lines.len() == 0 {
        Seq::<char>::empty()
    } else {
        written(lines.drop_last(), ending) + lines.last() + ending
    }
}

/// A list after a run over it, as text: its lines tidied, sorted and
/// merged, each followed by the line ending that the list came with.
pub open spec fn sorted_text(content: Seq<char>, config: SortConfig) -> Seq<char> {
    written(sorted_lines(rows(content), config), line_ending(content))
}

/// Runs over a list given as text and returns it as text, with the line
/// ending that it came with.
pub fn sort_text(content: &str, config: &SortConfig, warnings: &mut Vec<String>) -> (out: String)
    ensures
        out@ == sorted_text(content@, *config),
        strings(final(warnings)@) == strings(old(warnings)@) + run_warnings(
            rows(content@),
            *config,
        ),
{
    let mut changes = SortChanges::new();
    sort_text_tracked(content, config, warnings, &mut changes)
}

/// Runs over a list given as text as `sort_text` does, and notes what it
/// changes.
pub fn sort_text_tracked(
    content: &str,
    config: &SortConfig,
    warnings: &mut Vec<String>,
    changes: &mut SortChanges,
) -> (out: String)
    ensures
        out@ == sorted_text(content@, *config),
        strings(final(warnings)@) == strings(old(warnings)@) + run_warnings(
            rows(content@),
            *config,
        ),
        final(changes)@ == plus(old(changes)@, sort_changes(rows(content@), *config)),
{
    let text = chars_of(content);
    let parts = lines(&text);
    let ending = line_ending_of(&text);
    let lines = sort_lines_tracked(&strings_of(&parts), config, warnings, changes);
    let mut out: Vec<char> = Vec::new();
    let mut i: usize = 0;
    while i < lines.len()
        invariant
            i <= lines.len(),
            out@ == written(strings(lines@).take(i as int), ending@),
        decreases lines.len() - i,
    {
        proof {
            let all_out = strings(lines@);
            assert(all_out.take(i + 1).drop_last() =~= all_out.take(i as int));
        }
        append(&mut out, &chars_of(lines[i].as_str()));
        append(&mut out, &ending);
        i += 1;
    }
    assert(strings(lines@).take(lines.len() as int) =~= strings(lines@));
    string_of(&out)
}

/// What a run over a file comes to.
pub enum Outcome {
    /// The run leaves the file as it is.
    Unchanged,
    /// The file is to be rewritten with this text.
    Rewritten(String),
    /// In a dry run: the difference that the run would make.
    Difference(String),
}

/// What a run comes to, as a value of the model.
pub enum RunResult {
    Unchanged,
    Rewritten(Seq<char>),
    Difference(Seq<char>),
}

impl View for Outcome {
    type V = RunResult;

    open spec fn view(&self) -> RunResult {
        match self {
            Outcome::Unchanged => RunResult::Unchanged,
            Outcome::Rewritten(t) => RunResult::Rewritten(t@),
            Outcome::Difference(d) => RunResult::Difference(d@),
        }
    }
}

/// What a run over the file `name` with the text `content` comes to: no
/// change where the text comes out as it went in; else the new text, or,
/// in a dry run, the difference between the two as a unified diff.
pub open spec fn outcome_of(name: Seq<char>, content: Seq<char>, config: SortConfig) -> RunResult {
    let sorted = sorted_text(content, config);
    if sorted == content {
        RunResult::Unchanged
    } else if config.dry_run {
        RunResult::Difference(unified(name, rows(content), rows(sorted)))
    } else {
        RunResult::Rewritten(sorted)
    }
}

/// Runs over the text of the file `name` and says what is to be done with
/// the file; warns and notes what it changes as `sort_text_tracked` does.
pub fn sort_file(
    name: &str,
    content: &str,
    config: &SortConfig,
    warnings: &mut Vec<String>,
    changes: &mut SortChanges,
) -> (r: Outcome)
    ensures
        r@ == outcome_of(name@, content@, *config),
        strings(final(warnings)@) == strings(old(warnings)@) + run_warnings(
            rows(content@),
            *config,
        ),
        final(changes)@ == plus(old(changes)@, sort_changes(rows(content@), *config)),
{
    let sorted = sort_text_tracked(content, config, warnings, changes);
    if crate::text::same(&chars_of(sorted.as_str()), &chars_of(content)) {
        Outcome::Unchanged
    } else if config.dry_run {
        Outcome::Difference(unified_diff(name, content, sorted.as_str()))
    } else {
        Outcome::Rewritten(sorted)
    }
}

} // verus!
