//! A second run over a hosts file changes nothing.
//!
//! In a hosts file every line is a boundary, an entry or junk. A run writes
//! boundaries and entries out without white space around them, and both read
//! the same way when they are read again; the entries of a section come out
//! each once and sorted, and stay so when they are sorted again.

use crate::classify::line_class;
use crate::order::{carried, lemma_sorted, lemma_sorted_twice, sorted, Entry};
use crate::sections::{
    flushed, host_key, keyed_lines, progress, reading, sorted_lines, sorted_text, start, step,
    written, Kind, Progress, SortConfig,
};
use crate::text::{
    lemma_split_around, lemma_split_extended, lemma_trimmed_twice, line_ending, rows, split_on,
    trimmed, without_cr,
};
use crate::unique::{first_occurrences, lemma_first_occurrences, lemma_first_occurrences_fixed};
use vstd::prelude::*;

verus! {

/// The run that goes on from `p` over the lines of `lines`.
pub open spec fn progress_from(p: Progress, lines: Seq<Seq<char>>, config: SortConfig) -> Progress
    decreases lines.len(),
{
    if lines.len() == 0 {
        p
    } else {
        step(progress_from(p, lines.drop_last(), config), lines.last(), config)
    }
}

/// A run is the run that goes on from its start.
pub proof fn lemma_progress_from_start(lines: Seq<Seq<char>>, config: SortConfig)
    ensures
        progress(lines, config) == progress_from(start(), lines, config),
    decreases lines.len(),
{
    if lines.len() > 0 {
        lemma_progress_from_start(lines.drop_last(), config);
    }
}

/// A run over two lists, one after the other, is the run over the first
/// that goes on over the second.
pub proof fn lemma_progress_joined(
    p: Progress,
    a: Seq<Seq<char>>,
    b: Seq<Seq<char>>,
    config: SortConfig,
)
    ensures
        progress_from(p, a + b, config) == progress_from(progress_from(p, a, config), b, config),
    decreases b.len(),
{
    if b.len() > 0 {
        assert((a + b).drop_last() =~= a + b.drop_last());
        lemma_progress_joined(p, a, b.drop_last(), config);
    }
}

/// An entry as a run puts it into a section: an entry of a hosts file
/// without white space around it.
pub open spec fn is_entry(line: Seq<char>, config: SortConfig) -> bool {
    trimmed(line) == line && line_class(line, config) is LocalhostEntry
}

/// Entries that are read go into the section, and nothing else happens.
pub proof fn lemma_feed_entries(p: Progress, list: Seq<Seq<char>>, config: SortConfig)
    requires
        config.localhost,
        forall|i: int| 0 <= i < list.len() ==> is_entry(#[trigger] list[i], config),
    ensures
        progress_from(p, list, config) == (Progress { section: p.section + list, ..p }),
    decreases list.len(),
{
    if list.len() > 0 {
        let init = list.drop_last();
        lemma_feed_entries(p, init, config);
        assert((p.section + init).push(list.last()) =~= p.section + list);
    }
}

/// The entries of a section of a hosts file as they are written out are
/// entries of the section; writing them out again changes nothing.
pub proof fn lemma_flushed_twice(
    section: Seq<Seq<char>>,
    elements: nat,
    filters: nat,
    elements_again: nat,
    filters_again: nat,
    config: SortConfig,
)
    requires
        config.localhost,
    ensures
        forall|i: int|
            0 <= i < flushed(section, elements, filters, config).len() ==> section.contains(
                #[trigger] flushed(section, elements, filters, config)[i],
            ),
        flushed(
            flushed(section, elements, filters, config),
            elements_again,
            filters_again,
            config,
        ) == flushed(section, elements, filters, config),
{
    broadcast use vstd::seq_lib::group_to_multiset_ensures;

    let once = first_occurrences(section);
    lemma_first_occurrences(section);
    if config.no_sort {
        lemma_first_occurrences_fixed(once);
    } else {
        let key = host_key();
        let e = keyed_lines(once, key);
        let s = sorted(e);
        let r = carried(s);
        lemma_sorted(e);
        // each entry of the sorted list is the entry of the line it carries
        assert forall|i: int| 0 <= i < s.len() implies #[trigger] s[i] == (Entry {
            key: key(s[i].text),
            rank: 0,
            text: s[i].text,
        }) && once.contains(s[i].text) by {
            assert(s.to_multiset().count(s[i]) > 0);
        }
        // the lines have no duplicates, as the entries have none
        e.lemma_multiset_has_no_duplicates();
        s.lemma_multiset_has_no_duplicates_conv();
        lemma_first_occurrences_fixed(r);
        assert(keyed_lines(r, key) =~= s);
        lemma_sorted_twice(e);
    }
}

/// A run over a hosts file is settled when the lines of its section are
/// entries, and a run over what it has written out writes the same out and
/// ends with an empty section.
pub open spec fn settled(p: Progress, config: SortConfig) -> bool {
    &&& forall|i: int| 0 <= i < p.section.len() ==> is_entry(#[trigger] p.section[i], config)
    &&& progress(p.out, config) == (Progress {
        out: p.out,
        section: Seq::<Seq<char>>::empty(),
        checked: 1,
        filters: 0,
        elements: 0,
    })
}

/// What a run over what `p` has written out and would write out for its
/// section comes to: the same written out, and the section's lines, as
/// they are written out, in the section.
proof fn lemma_rerun_section(p: Progress, config: SortConfig)
    requires
        config.localhost,
        settled(p, config),
    ensures
        progress(p.out + flushed(p.section, p.elements, p.filters, config), config) == (Progress {
            out: p.out,
            section: flushed(p.section, p.elements, p.filters, config),
            checked: 1,
            filters: 0,
            elements: 0,
        }),
{
    let f = flushed(p.section, p.elements, p.filters, config);
    lemma_flushed_twice(p.section, p.elements, p.filters, 0, 0, config);
    lemma_progress_from_start(p.out + f, config);
    lemma_progress_joined(start(), p.out, f, config);
    lemma_progress_from_start(p.out, config);
    lemma_feed_entries(progress(p.out, config), f, config);
}

/// Every run over a hosts file is settled.
pub proof fn lemma_run_settled(lines: Seq<Seq<char>>, config: SortConfig)
    requires
        config.localhost,
    ensures
        settled(progress(lines, config), config),
    decreases lines.len(),
{
    if lines.len() > 0 {
        let p = progress(lines.drop_last(), config);
        lemma_run_settled(lines.drop_last(), config);
        let raw = lines.last();
        let line = trimmed(raw);
        lemma_trimmed_twice(raw);
        let next = step(p, raw, config);
        let f = flushed(p.section, p.elements, p.filters, config);
        let ends_section = match reading(line, config).kind {
            Kind::Blank => config.keep_empty_lines,
            Kind::Boundary => true,
            _ => false,
        };
        if ends_section {
            // what is written out: the section, then the line
            lemma_rerun_section(p, config);
            lemma_flushed_twice(p.section, p.elements, p.filters, 0, 0, config);
            assert(next.out.drop_last() =~= p.out + f);
        }
    }
}

/// A second run over a hosts file changes nothing.
pub proof fn lemma_hosts_rerun(lines: Seq<Seq<char>>, config: SortConfig)
    requires
        config.localhost,
    ensures
        sorted_lines(sorted_lines(lines, config), config) == sorted_lines(lines, config),
{
    let p = progress(lines, config);
    lemma_run_settled(lines, config);
    lemma_rerun_section(p, config);
    lemma_flushed_twice(p.section, p.elements, p.filters, 0, 0, config);
}

/// What stands before the line feed of a line ending.
pub open spec fn before_feed(ending: Seq<char>) -> Seq<char> {
    ending.drop_last()
}

/// The pieces between the line feeds of a text made of lines, each with a
/// line ending behind it: the lines, each with what stands before the line
/// feed of the ending behind it, and an empty piece at the end.
proof fn lemma_split_written(list: Seq<Seq<char>>, ending: Seq<char>)
    requires
        ending == seq!['\n'] || ending == seq!['\r', '\n'],
        forall|i: int| 0 <= i < list.len() ==> !(#[trigger] list[i]).contains('\n'),
    ensures
        split_on(written(list, ending), '\n') == list.map_values(
            |l: Seq<char>| l + before_feed(ending),
        ).push(Seq::<char>::empty()),
    decreases list.len(),
{
    let none = Seq::<char>::empty();
    if list.len() > 0 {
        let init = list.drop_last();
        let last = list.last();
        lemma_split_written(init, ending);
        let w = written(init, ending);
        let tail = last + before_feed(ending);
        assert(written(list, ending) =~= (w + tail) + seq!['\n'] + none);
        lemma_split_around(w + tail, none, '\n');
        lemma_split_extended(w, tail, '\n');
    }
}

/// A line as a run writes it out: without white space around it and
/// without a line feed in it.
pub open spec fn is_clean(line: Seq<char>) -> bool {
    trimmed(line) == line && !line.contains('\n')
}

/// The lines of a text made of clean lines, each with a line ending behind
/// it, are those lines.
proof fn lemma_rows_written(list: Seq<Seq<char>>, ending: Seq<char>)
    requires
        ending == seq!['\n'] || ending == seq!['\r', '\n'],
        forall|i: int| 0 <= i < list.len() ==> is_clean(#[trigger] list[i]),
    ensures
        rows(written(list, ending)) == list,
{
    lemma_split_written(list, ending);
    let with_rest = |l: Seq<char>| l + before_feed(ending);
    assert forall|i: int| 0 <= i < list.len() implies without_cr(#[trigger] with_rest(list[i]))
        == list[i] by {
        let l = list[i];
        if ending == seq!['\n'] {
            lemma_trimmed_twice(l);
        }
    }
}

/// The line ending of a text made of clean lines, each with a line ending
/// behind it, is that line ending, when there is a line.
proof fn lemma_ending_written(list: Seq<Seq<char>>, ending: Seq<char>)
    requires
        ending == seq!['\n'] || ending == seq!['\r', '\n'],
        forall|i: int| 0 <= i < list.len() ==> is_clean(#[trigger] list[i]),
        list.len() > 0,
    ensures
        line_ending(written(list, ending)) == ending,
{
    let w = written(list, ending);
    let mark = seq!['\r', '\n'];
    crate::text::lemma_occurs(w, mark);
    if ending == seq!['\r', '\n'] {
        let at = (written(list.drop_last(), ending) + list.last()).len() as int;
        assert(w.subrange(at, at + 2) =~= mark);
        assert(crate::text::occurs_at(w, mark, at));
    } else {
        lemma_no_return_before_feed(list, ending);
    }
}

/// In a text made of clean lines, each with a line feed behind it, no
/// carriage return stands before a line feed, and none at the end.
proof fn lemma_no_return_before_feed(list: Seq<Seq<char>>, ending: Seq<char>)
    requires
        ending == seq!['\n'],
        forall|i: int| 0 <= i < list.len() ==> is_clean(#[trigger] list[i]),
    ensures
        forall|k: int|
            0 <= k < written(list, ending).len() && #[trigger] written(list, ending)[k] == '\r'
                ==> k + 1 < written(list, ending).len() && written(list, ending)[k + 1] != '\n',
    decreases list.len(),
{
    if list.len() > 0 {
        let init = list.drop_last();
        let last = list.last();
        lemma_no_return_before_feed(init, ending);
        let w0 = written(init, ending);
        let w = written(list, ending);
        lemma_trimmed_twice(last);
        assert forall|k: int| 0 <= k < w.len() && #[trigger] w[k] == '\r' implies k + 1 < w.len()
            && w[k + 1] != '\n' by {
            if k < w0.len() {
            } else if k < w0.len() + last.len() {
            }
        }
    }
}

/// The lines of a text hold no line feed.
proof fn lemma_rows_have_no_feed(content: Seq<char>)
    ensures
        forall|i: int| 0 <= i < rows(content).len() ==> !(#[trigger] rows(content)[i]).contains(
            '\n',
        ),
{
    crate::text::lemma_split_pieces(content, '\n');
    crate::text::lemma_split_nonempty(content, '\n');
}

/// A text without a line feed has none when the white space around it is
/// taken away.
proof fn lemma_trimmed_has_no_feed(line: Seq<char>)
    requires
        !line.contains('\n'),
    ensures
        is_clean(trimmed(line)),
{
    lemma_trimmed_twice(line);
    crate::text::lemma_leading_run(line, crate::text::space());
    crate::text::lemma_trailing_run(crate::text::trimmed_start(line), crate::text::space());
}

/// What a run over lines without line feeds in a hosts file writes out, and
/// what it holds in its section, is clean.
proof fn lemma_run_clean(lines: Seq<Seq<char>>, config: SortConfig)
    requires
        config.localhost,
        forall|i: int| 0 <= i < lines.len() ==> !(#[trigger] lines[i]).contains('\n'),
    ensures
        forall|i: int|
            0 <= i < progress(lines, config).out.len() ==> is_clean(
                #[trigger] progress(lines, config).out[i],
            ),
        forall|i: int|
            0 <= i < progress(lines, config).section.len() ==> is_clean(
                #[trigger] progress(lines, config).section[i],
            ),
    decreases lines.len(),
{
    if lines.len() > 0 {
        let init = lines.drop_last();
        lemma_run_clean(init, config);
        let p = progress(init, config);
        let raw = lines.last();
        lemma_trimmed_has_no_feed(raw);
        let next = step(p, raw, config);
        let f = flushed(p.section, p.elements, p.filters, config);
        lemma_flushed_clean(p.section, p.elements, p.filters, config);
        let none = Seq::<char>::empty();
        assert(is_clean(none)) by {
            lemma_trimmed_twice(none);
            crate::text::lemma_leading(none, crate::text::space(), 0);
            crate::text::lemma_trailing(none, crate::text::space(), 0);
            assert(trimmed(none) =~= none);
        }
        assert forall|i: int| 0 <= i < next.out.len() implies is_clean(#[trigger] next.out[i]) by {
            if i < p.out.len() {
            } else if i < p.out.len() + f.len() {
            }
        }
    }
}

/// The lines of a section of clean lines are clean as they are written out.
proof fn lemma_flushed_clean(
    section: Seq<Seq<char>>,
    elements: nat,
    filters: nat,
    config: SortConfig,
)
    requires
        config.localhost,
        forall|i: int| 0 <= i < section.len() ==> is_clean(#[trigger] section[i]),
    ensures
        forall|i: int|
            0 <= i < flushed(section, elements, filters, config).len() ==> is_clean(
                #[trigger] flushed(section, elements, filters, config)[i],
            ),
{
    lemma_flushed_twice(section, elements, filters, 0, 0, config);
}

/// A second run over a hosts file, given as text, changes nothing.
pub proof fn lemma_hosts_text_rerun(content: Seq<char>, config: SortConfig)
    requires
        config.localhost,
    ensures
        sorted_text(sorted_text(content, config), config) == sorted_text(content, config),
{
    let lines = rows(content);
    let ending = line_ending(content);
    let out = sorted_lines(lines, config);
    let p = progress(lines, config);
    lemma_rows_have_no_feed(content);
    lemma_run_clean(lines, config);
    lemma_flushed_clean(p.section, p.elements, p.filters, config);
    lemma_rows_written(out, ending);
    lemma_hosts_rerun(lines, config);
    if out.len() > 0 {
        lemma_ending_written(out, ending);
    }
}

} // verus!
