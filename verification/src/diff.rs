//! The difference between a list before and after a run, written as one
//! hunk of a unified diff.
//!
//! The hunk leaves out the lines that the two texts share at their start
//! and at their end, and holds what lies between: first the lines that go,
//! then the lines that come.

use crate::text::{append, chars_of, decimal, lines, rows, same, string_of, texts, to_decimal};
use vstd::prelude::*;

verus! {

/// The number of lines, counted from `from`, that `a` and `b` share at
/// their start, and `from`.
pub open spec fn shared_start(a: Seq<Seq<char>>, b: Seq<Seq<char>>, from: int) -> int
    decreases a.len() - from,
{
    if 0 <= from < a.len() && from < b.len() && a[from] == b[from] {
        shared_start(a, b, from + 1)
    } else {
        from
    }
}

/// The line of `a` that has `i` lines behind it.
pub open spec fn from_end(a: Seq<Seq<char>>, i: int) -> Seq<char> {
    a[a.len() - 1 - i]
}

/// The number of lines that `a` and `b` share at their end, at most
/// `limit`, counted on from `n`.
pub open spec fn shared_end(a: Seq<Seq<char>>, b: Seq<Seq<char>>, limit: int, n: int) -> int
    decreases limit - n,
{
    if 0 <= n < limit && n < a.len() && n < b.len() && from_end(a, n) == from_end(b, n) {
        shared_end(a, b, limit, n + 1)
    } else {
        n
    }
}

/// The smaller of two numbers.
pub open spec fn least(x: int, y: int) -> int {
    if x <= y {
        x
    } else {
        y
    }
}

/// What lies between the shared start and the shared end of two lists of
/// lines.
pub struct Hunk {
    /// The number of lines before the hunk.
    pub before: int,
    /// The lines of the first list that the second does not have there.
    pub removed: Seq<Seq<char>>,
    /// The lines of the second list that the first does not have there.
    pub added: Seq<Seq<char>>,
}

/// The hunk between two lists of lines.
pub open spec fn hunk_of(a: Seq<Seq<char>>, b: Seq<Seq<char>>) -> Hunk {
    let before = shared_start(a, b, 0);
    let after = shared_end(a, b, least(a.len() as int, b.len() as int) - before, 0);
    Hunk {
        before,
        removed: a.subrange(before, a.len() - after),
        added: b.subrange(before, b.len() - after),
    }
}

/// What `shared_start` returns lies between `from` and the end of both
/// lists, and the lists agree from `from` up to it.
pub proof fn lemma_shared_start(a: Seq<Seq<char>>, b: Seq<Seq<char>>, from: int)
    requires
        0 <= from <= a.len(),
        from <= b.len(),
    ensures
        from <= shared_start(a, b, from) <= least(a.len() as int, b.len() as int),
        forall|i: int| from <= i < shared_start(a, b, from) ==> a[i] == b[i],
    decreases a.len() - from,
{
    if from < a.len() && from < b.len() && a[from] == b[from] {
        lemma_shared_start(a, b, from + 1);
    }
}

/// What `shared_end` returns lies between `n` and the limit, and the lists
/// agree in that many lines at their end, from the `n`-th from the end on.
pub proof fn lemma_shared_end(a: Seq<Seq<char>>, b: Seq<Seq<char>>, limit: int, n: int)
    requires
        0 <= n <= limit,
        limit <= a.len(),
        limit <= b.len(),
    ensures
        n <= shared_end(a, b, limit, n) <= limit,
        forall|i: int|
            n <= i < shared_end(a, b, limit, n) ==> #[trigger] from_end(a, i) == from_end(b, i),
    decreases limit - n,
{
    if n < limit && from_end(a, n) == from_end(b, n) {
        lemma_shared_end(a, b, limit, n + 1);
    }
}

/// Each of two lists is the lines before the hunk, its side of the hunk,
/// and the lines after the hunk, which are the same for both.
pub proof fn lemma_hunk_rebuilds(a: Seq<Seq<char>>, b: Seq<Seq<char>>)
    ensures
        ({
            let h = hunk_of(a, b);
            let after = a.len() - h.before - h.removed.len();
            &&& 0 <= h.before <= a.len()
            &&& 0 <= after
            &&& after == b.len() - h.before - h.added.len()
            &&& a == a.take(h.before) + h.removed + a.skip(a.len() - after)
            &&& b == a.take(h.before) + h.added + a.skip(a.len() - after)
        }),
{
    let h = hunk_of(a, b);
    lemma_shared_start(a, b, 0);
    let limit = least(a.len() as int, b.len() as int) - h.before;
    lemma_shared_end(a, b, limit, 0);
    let after = shared_end(a, b, limit, 0);
    let rebuilt = a.take(h.before) + h.added + a.skip(a.len() - after);
    assert forall|i: int| 0 <= i < b.len() implies rebuilt[i] == b[i] by {
        if i < h.before {
        } else if i < b.len() - after {
        } else {
            let k = b.len() - 1 - i;
            assert(from_end(a, k) == from_end(b, k));
        }
    }
}

/// The range of a hunk's side as a unified diff states it: the number of
/// its first line and the number of its lines; for a side without lines,
/// the number of the line before it and 0.
pub open spec fn range_text(before: int, count: int) -> Seq<char> {
    if count == 0 {
        decimal(before as nat) + ",0"@
    } else {
        decimal((before + 1) as nat) + ","@ + decimal(count as nat)
    }
}

/// The lines of `list`, each with `sign` before it and a line feed behind
/// it.
pub open spec fn signed(list: Seq<Seq<char>>, sign: char) -> Seq<char>
    decreases list.len(),
{
    if list.len() == 0 {
        Seq::<char>::empty()
    } else {
        signed(list.drop_last(), sign) + seq![sign] + list.last() + seq!['\n']
    }
}

/// The unified diff of two lists of lines under a file name: empty for the
/// same lists; else the two header lines, the line of ranges, the lines
/// that go and the lines that come.
pub open spec fn unified(name: Seq<char>, a: Seq<Seq<char>>, b: Seq<Seq<char>>) -> Seq<char> {
    if a == b {
        Seq::<char>::empty()
    } else {
        let h = hunk_of(a, b);
        "--- a/"@ + name + "\n+++ b/"@ + name + "\n@@ -"@ + range_text(
            h.before,
            h.removed.len() as int,
        ) + " +"@ + range_text(h.before, h.added.len() as int) + " @@\n"@ + signed(h.removed, '-')
            + signed(h.added, '+')
    }
}

fn same_lines(a: &Vec<Vec<char>>, b: &Vec<Vec<char>>) -> (r: bool)
    ensures
        r == (texts(a@) == texts(b@)),
{
    if a.len() != b.len() {
        return false;
    }
    let mut i: usize = 0;
    while i < a.len()
        invariant
            i <= a.len(),
            a.len() == b.len(),
            forall|k: int| 0 <= k < i ==> a@[k]@ == b@[k]@,
        decreases a.len() - i,
    {
        if !same(&a[i], &b[i]) {
            assert(texts(a@)[i as int] != texts(b@)[i as int]);
            return false;
        }
        i += 1;
    }
    assert(texts(a@) =~= texts(b@));
    true
}

fn range_of(before: usize, count: usize) -> (r: Vec<char>)
    requires
        before < usize::MAX,
    ensures
        r@ == range_text(before as int, count as int),
{
    if count == 0 {
        let mut r = to_decimal(before as u64);
        append(&mut r, &chars_of(",0"));
        r
    } else {
        let mut r = to_decimal((before + 1) as u64);
        append(&mut r, &chars_of(","));
        append(&mut r, &to_decimal(count as u64));
        r
    }
}

fn push_signed(out: &mut Vec<char>, list: &Vec<Vec<char>>, from: usize, to: usize, sign: char)
    requires
        from <= to <= list.len(),
    ensures
        final(out)@ == old(out)@ + signed(texts(list@).subrange(from as int, to as int), sign),
{
    let ghost start = out@;
    let ghost part = texts(list@).subrange(from as int, to as int);
    let mut i: usize = from;
    while i < to
        invariant
            from <= i <= to <= list.len(),
            part == texts(list@).subrange(from as int, to as int),
            out@ == start + signed(part.take(i - from), sign),
        decreases to - i,
    {
        proof {
            assert(part.take(i + 1 - from).drop_last() =~= part.take(i - from));
        }
        out.push(sign);
        append(out, &list[i]);
        out.push('\n');
        i += 1;
    }
    assert(part.take(to - from) =~= part);
}

/// The unified diff of the lines of two texts, under the file name `name`.
/// Empty when the two have the same lines.
pub fn unified_diff(name: &str, before: &str, after: &str) -> (r: String)
    ensures
        r@ == unified(name@, rows(before@), rows(after@)),
{
    let a = lines(&chars_of(before));
    let b = lines(&chars_of(after));
    if same_lines(&a, &b) {
        return String::new();
    }
    let ghost sa = texts(a@);
    let ghost sb = texts(b@);
    let most: usize = if a.len() <= b.len() {
        a.len()
    } else {
        b.len()
    };
    let mut start: usize = 0;
    while start < most && same(&a[start], &b[start])
        invariant
            start <= most,
            most == least(a.len() as int, b.len() as int),
            sa == texts(a@),
            sb == texts(b@),
            shared_start(sa, sb, 0) == shared_start(sa, sb, start as int),
        decreases most - start,
    {
        start += 1;
    }
    let limit: usize = most - start;
    let mut end: usize = 0;
    while end < limit && same(&a[a.len() - 1 - end], &b[b.len() - 1 - end])
        invariant
            end <= limit,
            limit == most - start,
            most == least(a.len() as int, b.len() as int),
            sa == texts(a@),
            sb == texts(b@),
            shared_end(sa, sb, limit as int, 0) == shared_end(sa, sb, limit as int, end as int),
        decreases limit - end,
    {
        end += 1;
    }
    let name_chars = chars_of(name);
    let mut r = chars_of("--- a/");
    append(&mut r, &name_chars);
    append(&mut r, &chars_of("\n+++ b/"));
    append(&mut r, &name_chars);
    append(&mut r, &chars_of("\n@@ -"));
    proof {
        if a.len() == b.len() {
            // two lists of the same length that differ do not share every line
            if start == most {
                assert forall|k: int| 0 <= k < sa.len() implies sa[k] == sb[k] by {
                    lemma_shared_start(sa, sb, 0);
                }
                assert(sa =~= sb);
            }
        }
        lemma_shared_start(sa, sb, 0);
    }
    append(&mut r, &range_of(start, a.len() - end - start));
    append(&mut r, &chars_of(" +"));
    append(&mut r, &range_of(start, b.len() - end - start));
    append(&mut r, &chars_of(" @@\n"));
    push_signed(&mut r, &a, start, a.len() - end, '-');
    push_signed(&mut r, &b, start, b.len() - end, '+');
    string_of(&r)
}

} // verus!
