//! The `Checksum` line of a filter list's header.
//!
//! The checksum of a list is the MD5 digest of its text, without the
//! checksum line, without carriage returns and with each run of line feeds
//! as one, written in Base64 without padding. The digest is computed by the
//! `md5` crate and written by the `base64` crate.

use crate::text::{
    append, ascii_lowercase, ascii_lowered, chars_of, copy, first_where, is_prefix, laid_out,
    lay_out, lemma_rows_nonempty, line_ending, line_ending_of, lines, rows, same, split,
    split_on, starts_with_str, string_of, texts, trim, trim_start, trimmed, trimmed_start,
    without_where,
};
use base64::Engine;
use vstd::prelude::*;
use vstd::string::StringSliceAdditionalSpecFns;

verus! {

/// What checking a list's checksum found.
#[derive(Debug, Clone, PartialEq, Eq)]
pub enum ChecksumResult {
    /// The checksum in the list is the checksum of the list.
    Valid,
    /// The list states `found` where its checksum is `expected`.
    Invalid { expected: String, found: String },
    /// The list has no checksum line.
    Missing,
}

/// The MD5 digest of a sequence of bytes.
pub uninterp spec fn md5_digest(data: Seq<u8>) -> Seq<u8>;

/// The Base64 form of a sequence of bytes, in the standard alphabet with
/// padding.
pub uninterp spec fn base64_standard(data: Seq<u8>) -> Seq<char>;

/// `md5::compute` of the `md5` crate: the digest of the bytes, which has 16
/// bytes.
#[verifier::external_body]
fn md5_of(data: &[u8]) -> (digest: Vec<u8>)
    ensures
        digest@ == md5_digest(data@),
        digest@.len() == 16,
{
    md5::compute(data).0.to_vec()
}

/// `Engine::encode` of the `base64` crate, on its `STANDARD` engine: the
/// Base64 form of the bytes. The crate gives up on an input so long that
/// the length of its Base64 form does not fit the machine's integers; such
/// an input is left out.
#[verifier::external_body]
fn base64_of(data: &[u8]) -> (text: String)
    requires
        data@.len() <= 0x10_0000,
    ensures
        text@ == base64_standard(data@),
{
    base64::engine::general_purpose::STANDARD.encode(data)
}

/// A checksum line: after white space, `!` or `#`, and white space, it
/// begins with `checksum`, in any mix of ASCII cases.
pub open spec fn checksum_line(line: Seq<char>) -> bool {
    let t = trimmed(line);
    t.len() > 0 && (t[0] == '!' || t[0] == '#') && is_prefix(
        ascii_lowered(trimmed_start(t.skip(1))),
        "checksum"@,
    )
}

/// Whether `line` is a checksum line.
pub fn is_checksum_line(line: &str) -> (b: bool)
    ensures
        b == checksum_line(line@),
{
    let t = trim(&chars_of(line));
    if t.len() == 0 || !(t[0] == '!' || t[0] == '#') {
        return false;
    }
    let rest = crate::text::slice(&t, 1, t.len());
    starts_with_str(&ascii_lowercase(&trim_start(&rest)), "checksum")
}

/// `s` without its carriage returns, and with each run of line feeds as
/// one line feed.
pub open spec fn normalized(s: Seq<char>) -> Seq<char> {
    squeezed(s.filter(|c: char| c != '\r'))
}

/// `s` without each line feed that directly follows a line feed.
pub open spec fn squeezed(s: Seq<char>) -> Seq<char>
    decreases s.len(),
{
    if s.len() == 0 {
        s
    } else if s.len() >= 2 && s.last() == '\n' && s[s.len() - 2] == '\n' {
        squeezed(s.drop_last())
    } else {
        squeezed(s.drop_last()).push(s.last())
    }
}

/// `s` without the `=` at its end.
pub open spec fn unpadded(s: Seq<char>) -> Seq<char>
    decreases s.len(),
{
    if s.len() > 0 && s.last() == '=' {
        unpadded(s.drop_last())
    } else {
        s
    }
}

/// The checksum of a text.
pub open spec fn checksum_of(data: Seq<char>) -> Seq<char> {
    unpadded(base64_standard(md5_digest(vstd::utf8::encode_utf8(normalized(data)))))
}

fn normalize(data: &Vec<char>) -> (r: Vec<char>)
    ensures
        r@ == normalized(data@),
{
    let mut kept: Vec<char> = Vec::new();
    let mut i: usize = 0;
    let ghost test = |c: char| c != '\r';
    while i < data.len()
        invariant
            i <= data.len(),
            test == (|c: char| c != '\r'),
            kept@ == data@.take(i as int).filter(test),
        decreases data.len() - i,
    {
        proof {
            reveal(Seq::filter);
            assert(data@.take(i + 1).drop_last() =~= data@.take(i as int));
        }
        if data[i] != '\r' {
            kept.push(data[i]);
        }
        i += 1;
    }
    assert(data@.take(data.len() as int) =~= data@);
    let mut r: Vec<char> = Vec::new();
    let mut j: usize = 0;
    while j < kept.len()
        invariant
            j <= kept.len(),
            r@ == squeezed(kept@.take(j as int)),
        decreases kept.len() - j,
    {
        proof {
            assert(kept@.take(j + 1).drop_last() =~= kept@.take(j as int));
        }
        if !(j >= 1 && kept[j] == '\n' && kept[j - 1] == '\n') {
            r.push(kept[j]);
        }
        j += 1;
    }
    assert(kept@.take(kept.len() as int) =~= kept@);
    r
}

/// The checksum of a list's text, given the Base64 form of its digest.
pub fn checksum_from(encoded: &str) -> (r: String)
    ensures
        r@ == unpadded(encoded@),
{
    let e = chars_of(encoded);
    let mut n: usize = e.len();
    assert(e@.take(n as int) =~= e@);
    while n > 0 && e[n - 1] == '='
        invariant
            n <= e.len(),
            unpadded(e@) == unpadded(e@.take(n as int)),
        decreases n,
    {
        proof {
            assert(e@.take(n as int).drop_last() =~= e@.take(n - 1));
        }
        n -= 1;
    }
    let r = crate::text::slice(&e, 0, n);
    string_of(&r)
}

/// The checksum of `data`.
pub fn calculate_checksum(data: &str) -> (r: String)
    ensures
        r@ == checksum_of(data@),
{
    let text = string_of(&normalize(&chars_of(data)));
    let digest = md5_of(text.as_str().as_bytes());
    let encoded = base64_of(digest.as_slice());
    checksum_from(encoded.as_str())
}

/// The test for being a checksum line.
pub open spec fn checksum_test() -> spec_fn(Seq<char>) -> bool {
    |line: Seq<char>| checksum_line(line)
}

/// What a checksum line states: what stands between its first and its
/// second colon, or behind its first where it has one only, without white
/// space around it.
pub open spec fn stated(line: Seq<char>) -> Option<Seq<char>> {
    if split_on(line, ':').len() >= 2 {
        Some(trimmed(split_on(line, ':')[1]))
    } else {
        None
    }
}

/// The checksum that the list states in its first checksum line.
pub open spec fn found_checksum(content: Seq<char>) -> Option<Seq<char>> {
    match first_where(rows(content), checksum_test()) {
        Some(i) => stated(rows(content)[i]),
        None => None,
    }
}

/// The checksum that a list should state: that of its lines other than the
/// checksum lines, each followed by a line feed.
pub open spec fn expected_checksum(content: Seq<char>) -> Seq<char> {
    checksum_of(laid_out(without_where(rows(content), checksum_test()), seq!['\n'], true))
}

/// A result stands for what checking a list with the text `content` finds.
pub open spec fn verdict_of(r: ChecksumResult, content: Seq<char>) -> bool {
    match r {
        ChecksumResult::Missing => found_checksum(content) is None,
        ChecksumResult::Valid => found_checksum(content) == Some(expected_checksum(content)),
        ChecksumResult::Invalid { expected, found } => found_checksum(content) == Some(found@)
            && expected@ == expected_checksum(content) && found@ != expected@,
    }
}

fn find_first_checksum(list: &Vec<Vec<char>>) -> (r: Option<usize>)
    ensures
        match r {
            Some(i) => first_where(texts(list@), checksum_test()) == Some(i as int) && i
                < list.len(),
            None => first_where(texts(list@), checksum_test()) is None,
        },
{
    let ghost all = texts(list@);
    let mut i: usize = 0;
    while i < list.len()
        invariant
            i <= list.len(),
            all == texts(list@),
            first_where(all.take(i as int), checksum_test()) is None,
        decreases list.len() - i,
    {
        proof {
            assert(all.take(i + 1).drop_last() =~= all.take(i as int));
        }
        if is_checksum_line(string_of(&list[i]).as_str()) {
            proof {
                crate::text::lemma_first_where_extends(all, checksum_test(), i + 1);
            }
            return Some(i);
        }
        i += 1;
    }
    assert(all.take(all.len() as int) =~= all);
    None
}

fn stated_in(line: &Vec<char>) -> (r: Option<Vec<char>>)
    ensures
        match r {
            Some(t) => stated(line@) == Some(t@),
            None => stated(line@) is None,
        },
{
    let parts = split(line, ':');
    if parts.len() >= 2 {
        Some(trim(&parts[1]))
    } else {
        None
    }
}

fn expected_of(list: &Vec<Vec<char>>) -> (r: String)
    ensures
        r@ == checksum_of(laid_out(without_where(texts(list@), checksum_test()), seq!['\n'], true)),
{
    let ghost all = texts(list@);
    let mut rest: Vec<Vec<char>> = Vec::new();
    let mut i: usize = 0;
    while i < list.len()
        invariant
            i <= list.len(),
            all == texts(list@),
            texts(rest@) == without_where(all.take(i as int), checksum_test()),
        decreases list.len() - i,
    {
        proof {
            assert(all.take(i + 1).drop_last() =~= all.take(i as int));
        }
        if !is_checksum_line(string_of(&list[i]).as_str()) {
            rest.push(copy(&list[i]));
        }
        i += 1;
    }
    assert(all.take(all.len() as int) =~= all);
    let feed: Vec<char> = vec!['\n'];
    assert(feed@ =~= seq!['\n']);
    calculate_checksum(string_of(&lay_out(&rest, &feed, true)).as_str())
}

/// Checks the checksum that a list states against the checksum of its
/// text.
pub fn verify(content: &str) -> (r: ChecksumResult)
    ensures
        verdict_of(r, content@),
{
    let list = lines(&chars_of(content));
    let found = match find_first_checksum(&list) {
        Some(i) => match stated_in(&list[i]) {
            Some(f) => f,
            None => {
                return ChecksumResult::Missing;
            },
        },
        None => {
            return ChecksumResult::Missing;
        },
    };
    let expected = expected_of(&list);
    if same(&chars_of(expected.as_str()), &found) {
        ChecksumResult::Valid
    } else {
        ChecksumResult::Invalid { expected, found: string_of(&found) }
    }
}

/// A checksum line.
pub open spec fn fresh_line(mark: Seq<char>, checksum: Seq<char>) -> Seq<char> {
    mark + " Checksum: "@ + checksum
}

/// The comment mark of a kind of list: `#` for a hosts file, else `!`.
pub open spec fn list_mark(use_hash: bool) -> Seq<char> {
    if use_hash {
        "#"@
    } else {
        "!"@
    }
}

/// The lines of a list with the checksum line `line`: in place of its first
/// checksum line, or, where it has none, after its first line.
pub open spec fn summed_lines(list: Seq<Seq<char>>, line: Seq<char>) -> Seq<Seq<char>> {
    match first_where(list, checksum_test()) {
        Some(i) => list.update(i, line),
        None => if list.len() == 0 {
            list
        } else {
            list.take(1).push(line) + list.skip(1)
        },
    }
}

/// A list with its checksum, laid out with the line ending it came with,
/// and closed by one when it was.
pub open spec fn summed_text(content: Seq<char>, use_hash: bool) -> Seq<char> {
    laid_out(
        summed_lines(rows(content), fresh_line(list_mark(use_hash), expected_checksum(content))),
        line_ending(content),
        content.len() > 0 && content.last() == '\n',
    )
}

/// The list states its checksum already: its first checksum line ends with
/// it.
pub open spec fn already_summed(content: Seq<char>) -> bool {
    match first_where(rows(content), checksum_test()) {
        Some(i) => crate::text::is_suffix(rows(content)[i], expected_checksum(content)),
        None => false,
    }
}

/// A list that was given its checksum: its text, the checksum it stated and
/// the one it states.
pub struct Summed {
    pub content: String,
    pub old: Option<String>,
    pub checksum: String,
}

/// Gives a list its checksum. `None` for an empty list and for one that
/// states its checksum already.
pub fn add(content: &str, use_hash: bool) -> (r: Option<Summed>)
    ensures
        match r {
            Some(s) => content@.len() > 0 && !already_summed(content@) && s.content@
                == summed_text(content@, use_hash) && s.content@ != content@ && s.checksum@
                == expected_checksum(content@) && match s.old {
                Some(o) => found_checksum(content@) == Some(o@),
                None => found_checksum(content@) is None,
            },
            None => content@.len() == 0 || already_summed(content@) || summed_text(
                content@,
                use_hash,
            ) == content@,
        },
{
    let text = chars_of(content);
    if text.len() == 0 {
        return None;
    }
    let ending = line_ending_of(&text);
    let mut list = lines(&text);
    let ghost all = texts(list@);
    let checksum = expected_of(&list);
    let sum = chars_of(checksum.as_str());
    let mut fresh = if use_hash {
        chars_of("#")
    } else {
        chars_of("!")
    };
    append(&mut fresh, &chars_of(" Checksum: "));
    append(&mut fresh, &sum);
    let old: Option<String>;
    match find_first_checksum(&list) {
        Some(i) => {
            if crate::text::ends_with(&list[i], &sum) {
                return None;
            }
            old = match stated_in(&list[i]) {
                Some(o) => Some(string_of(&o)),
                None => None,
            };
            list[i] = fresh;
            assert(texts(list@) =~= all.update(i as int, fresh@));
        },
        None => {
            old = None;
            proof {
                lemma_rows_nonempty(text@);
            }
            list.insert(1, fresh);
            assert(texts(list@) =~= all.take(1).push(fresh@) + all.skip(1));
        },
    }
    let out = lay_out(&list, &ending, crate::text::ends_with_char(&text, '\n'));
    if same(&out, &text) {
        return None;
    }
    Some(Summed { content: string_of(&out), old, checksum })
}

} // verus!
