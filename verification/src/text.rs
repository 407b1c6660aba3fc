//! Character-sequence primitives shared by the rest of the library.
//!
//! A piece of text is modelled as a `Seq<char>`; executable code holds it as a
//! `Vec<char>`, and a list of texts as a `Vec<Vec<char>>`.

use vstd::prelude::*;

verus! {

/// The texts that a list of character vectors holds.
pub open spec fn texts(v: Seq<Vec<char>>) -> Seq<Seq<char>> {
    v.map_values(|t: Vec<char>| t@)
}

/// The texts that a list of strings holds.
pub open spec fn strings(v: Seq<String>) -> Seq<Seq<char>> {
    v.map_values(|t: String| t@)
}

/// `p` occurs in `s` starting at index `i`.
pub open spec fn occurs_at(s: Seq<char>, p: Seq<char>, i: int) -> bool {
    0 <= i && i + p.len() <= s.len() && s.subrange(i, i + p.len()) == p
}

/// `s` begins with `p`.
pub open spec fn is_prefix(s: Seq<char>, p: Seq<char>) -> bool {
    occurs_at(s, p, 0)
}

/// `s` ends with `p`.
pub open spec fn is_suffix(s: Seq<char>, p: Seq<char>) -> bool {
    occurs_at(s, p, s.len() - p.len())
}

/// Index of the first occurrence of `p` in `s` at or after `from`.
pub open spec fn index_from(s: Seq<char>, p: Seq<char>, from: int) -> Option<int>
    decreases s.len() - from + 1,
{
    if from < 0 || from + p.len() > s.len() as int {
        None
    } else if occurs_at(s, p, from) {
        Some(from)
    } else {
        index_from(s, p, from + 1)
    }
}

/// Index of the first occurrence of `p` in `s`.
pub open spec fn index_of(s: Seq<char>, p: Seq<char>) -> Option<int> {
    index_from(s, p, 0)
}

/// `p` occurs somewhere in `s`.
pub open spec fn occurs(s: Seq<char>, p: Seq<char>) -> bool {
    index_of(s, p) is Some
}

/// `index_from` returns the least index at or after `from` where `p` occurs,
/// and `None` exactly when there is none.
pub proof fn lemma_index_from(s: Seq<char>, p: Seq<char>, from: int)
    requires
        0 <= from,
    ensures
        match index_from(s, p, from) {
            Some(i) => from <= i && occurs_at(s, p, i) && forall|j: int|
                from <= j < i ==> !occurs_at(s, p, j),
            None => forall|j: int| from <= j ==> !occurs_at(s, p, j),
        },
    decreases s.len() - from + 1,
{
    if from + p.len() > s.len() as int {
    } else if occurs_at(s, p, from) {
    } else {
        lemma_index_from(s, p, from + 1);
    }
}

/// `occurs` holds exactly when `p` occurs at some index of `s`.
pub proof fn lemma_occurs(s: Seq<char>, p: Seq<char>)
    ensures
        occurs(s, p) <==> exists|i: int| occurs_at(s, p, i),
{
    lemma_index_from(s, p, 0);
}

/// The characters of `s`, in order.
pub fn chars_of(s: &str) -> (v: Vec<char>)
    ensures
        v@ == s@,
{
    let mut v: Vec<char> = Vec::new();
    for c in it: s.chars()
        invariant
            v@ == it.seq().take(it.index() as int),
            it.seq() == s@,
    {
        v.push(c);
    }
    v
}

/// `String::push`: appends one character to the string.
#[verifier::external_body]
fn push_char(s: &mut String, c: char)
    ensures
        final(s)@ == old(s)@.push(c),
{
    s.push(c)
}

/// The string made of the characters of `v`, in order.
pub fn string_of(v: &Vec<char>) -> (s: String)
    ensures
        s@ == v@,
{
    let mut s = String::new();
    let mut i: usize = 0;
    while i < v.len()
        invariant
            i <= v.len(),
            s@ == v@.take(i as int),
        decreases v.len() - i,
    {
        push_char(&mut s, v[i]);
        i += 1;
    }
    s
}

/// Whether `p` occurs in `s` at index `i`.
pub fn matches_at(s: &Vec<char>, p: &Vec<char>, i: usize) -> (b: bool)
    ensures
        b == occurs_at(s@, p@, i as int),
{
    if p.len() > s.len() || i > s.len() - p.len() {
        return false;
    }
    let mut k: usize = 0;
    while k < p.len()
        invariant
            k <= p.len(),
            i + p.len() <= s.len(),
            forall|j: int| 0 <= j < k ==> s@[i + j] == p@[j],
        decreases p.len() - k,
    {
        if s[i + k] != p[k] {
            return false;
        }
        k += 1;
    }
    assert(s@.subrange(i as int, i + p.len()) =~= p@);
    true
}

/// Whether `s` begins with `p`.
pub fn starts_with(s: &Vec<char>, p: &Vec<char>) -> (b: bool)
    ensures
        b == is_prefix(s@, p@),
{
    matches_at(s, p, 0)
}

/// Whether `s` ends with `p`.
pub fn ends_with(s: &Vec<char>, p: &Vec<char>) -> (b: bool)
    ensures
        b == is_suffix(s@, p@),
{
    if p.len() > s.len() {
        return false;
    }
    matches_at(s, p, s.len() - p.len())
}

/// Index of the first occurrence of `p` in `s` at or after `from`.
pub fn find_from(s: &Vec<char>, p: &Vec<char>, from: usize) -> (r: Option<usize>)
    ensures
        match r {
            Some(i) => index_from(s@, p@, from as int) == Some(i as int),
            None => index_from(s@, p@, from as int) is None,
        },
{
    if p.len() > s.len() {
        return None;
    }
    let last: usize = s.len() - p.len();
    let mut i: usize = from;
    while i <= last
        invariant
            from <= i,
            last == s.len() - p.len(),
            index_from(s@, p@, from as int) == index_from(s@, p@, i as int),
        decreases last + 1 - i,
    {
        if matches_at(s, p, i) {
            return Some(i);
        }
        if i == last {
            assert(index_from(s@, p@, i + 1) is None);
            return None;
        }
        i += 1;
    }
    None
}

/// Index of the first occurrence of `p` in `s`.
pub fn find(s: &Vec<char>, p: &Vec<char>) -> (r: Option<usize>)
    ensures
        match r {
            Some(i) => index_of(s@, p@) == Some(i as int),
            None => index_of(s@, p@) is None,
        },
{
    find_from(s, p, 0)
}

/// Whether `p` occurs somewhere in `s`.
pub fn contains(s: &Vec<char>, p: &Vec<char>) -> (b: bool)
    ensures
        b == occurs(s@, p@),
{
    find(s, p).is_some()
}

/// Whether `a` and `b` hold the same characters.
pub fn same(a: &Vec<char>, b: &Vec<char>) -> (r: bool)
    ensures
        r == (a@ == b@),
{
    if a.len() != b.len() {
        return false;
    }
    let r = matches_at(a, b, 0);
    proof {
        if r {
            assert(a@.subrange(0, a@.len() as int) =~= a@);
        } else {
            if a@ == b@ {
                assert(a@.subrange(0, b@.len() as int) =~= b@);
            }
        }
    }
    r
}

/// A copy of the characters of `s` from index `from` up to `to`.
pub fn slice(s: &Vec<char>, from: usize, to: usize) -> (r: Vec<char>)
    requires
        from <= to <= s.len(),
    ensures
        r@ == s@.subrange(from as int, to as int),
{
    let mut r: Vec<char> = Vec::new();
    let mut i: usize = from;
    while i < to
        invariant
            from <= i <= to <= s.len(),
            r@ == s@.subrange(from as int, i as int),
        decreases to - i,
    {
        r.push(s[i]);
        i += 1;
    }
    r
}

/// Appends the characters of `src` to `dst`.
pub fn append(dst: &mut Vec<char>, src: &Vec<char>)
    ensures
        final(dst)@ == old(dst)@ + src@,
{
    let mut i: usize = 0;
    while i < src.len()
        invariant
            i <= src.len(),
            dst@ == old(dst)@ + src@.take(i as int),
        decreases src.len() - i,
    {
        dst.push(src[i]);
        i += 1;
    }
}

/// The concatenation of `a` and `b`.
pub fn concat(a: &Vec<char>, b: &Vec<char>) -> (r: Vec<char>)
    ensures
        r@ == a@ + b@,
{
    let mut r: Vec<char> = Vec::new();
    append(&mut r, a);
    append(&mut r, b);
    r
}

/// `s` with its first occurrence of `from` replaced by `to`; `s` itself when
/// `from` does not occur.
pub open spec fn replaced_first(s: Seq<char>, from: Seq<char>, to: Seq<char>) -> Seq<char> {
    match index_of(s, from) {
        Some(i) => s.subrange(0, i) + to + s.subrange(i + from.len(), s.len() as int),
        None => s,
    }
}

/// Replaces the first occurrence of `from` in `s` by `to`.
pub fn replace_first(s: &Vec<char>, from: &Vec<char>, to: &Vec<char>) -> (r: Vec<char>)
    ensures
        r@ == replaced_first(s@, from@, to@),
{
    proof {
        lemma_index_from(s@, from@, 0);
    }
    match find(s, from) {
        Some(i) => {
            let n: usize = s.len();
            let end: usize = i + from.len();
            let mut r = slice(s, 0, i);
            append(&mut r, to);
            let tail = slice(s, end, s.len());
            append(&mut r, &tail);
            r
        },
        None => {
            let r = slice(s, 0, s.len());
            r
        },
    }
}

/// `s` with every occurrence of `from` replaced by `to`, found left to right
/// without overlap. An empty `from` leaves `s` as it is.
pub open spec fn replaced_all(s: Seq<char>, from: Seq<char>, to: Seq<char>) -> Seq<char>
    decreases s.len(),
{
    if from.len() == 0 {
        s
    } else {
        match index_of(s, from) {
            Some(i) => if 0 <= i && i + from.len() <= s.len() {
                s.subrange(0, i) + to + replaced_all(
                    s.subrange(i + from.len(), s.len() as int),
                    from,
                    to,
                )
            } else {
                s
            },
            None => s,
        }
    }
}

/// Searching a suffix of `s` is searching `s` from the suffix's start.
pub proof fn lemma_index_in_suffix(s: Seq<char>, p: Seq<char>, start: int, from: int)
    requires
        0 <= start <= s.len(),
        0 <= from,
    ensures
        index_from(s.subrange(start, s.len() as int), p, from) == match index_from(
            s,
            p,
            start + from,
        ) {
            Some(i) => Some(i - start),
            None => None,
        },
    decreases s.len() - start - from + 1,
{
    let t = s.subrange(start, s.len() as int);
    if from + p.len() <= t.len() {
        assert(t.subrange(from, from + p.len()) =~= s.subrange(
            start + from,
            start + from + p.len(),
        ));
        if !occurs_at(t, p, from) {
            lemma_index_in_suffix(s, p, start, from + 1);
        }
    }
}

/// Replaces every occurrence of `from` in `s` by `to`.
pub fn replace_all(s: &Vec<char>, from: &Vec<char>, to: &Vec<char>) -> (r: Vec<char>)
    ensures
        r@ == replaced_all(s@, from@, to@),
{
    if from.len() == 0 {
        let r = slice(s, 0, s.len());
        return r;
    }
    let mut r: Vec<char> = Vec::new();
    let mut pos: usize = 0;
    assert(s@.subrange(0, s@.len() as int) =~= s@);
    loop
        invariant
            pos <= s.len(),
            from.len() > 0,
            r@ + replaced_all(s@.subrange(pos as int, s@.len() as int), from@, to@)
                == replaced_all(s@, from@, to@),
        decreases s.len() - pos,
    {
        let ghost rest = s@.subrange(pos as int, s@.len() as int);
        proof {
            lemma_index_in_suffix(s@, from@, pos as int, 0);
            lemma_index_from(s@, from@, pos as int);
        }
        match find_from(s, from, pos) {
            Some(i) => {
                let head = slice(s, pos, i);
                append(&mut r, &head);
                append(&mut r, to);
                proof {
                    let j = i - pos;
                    assert(rest.subrange(j + from@.len(), rest.len() as int) =~= s@.subrange(
                        i + from@.len(),
                        s@.len() as int,
                    ));
                }
                pos = i + from.len();
            },
            None => {
                let tail = slice(s, pos, s.len());
                append(&mut r, &tail);
                return r;
            },
        }
    }
}

/// The pieces of `s` between occurrences of `sep`, in order; `n` separators
/// give `n + 1` pieces, some of which may be empty.
pub open spec fn split_on(s: Seq<char>, sep: char) -> Seq<Seq<char>>
    decreases s.len(),
{
    if s.len() == 0 {
        seq![Seq::<char>::empty()]
    } else {
        let rest = split_on(s.drop_last(), sep);
        if s.last() == sep {
            rest.push(Seq::<char>::empty())
        } else {
            rest.drop_last().push(rest.last().push(s.last()))
        }
    }
}

/// A split always yields at least one piece.
pub proof fn lemma_split_nonempty(s: Seq<char>, sep: char)
    ensures
        split_on(s, sep).len() >= 1,
    decreases s.len(),
{
    if s.len() > 0 {
        lemma_split_nonempty(s.drop_last(), sep);
    }
}

/// Splits `s` at every occurrence of `sep`.
pub fn split(s: &Vec<char>, sep: char) -> (parts: Vec<Vec<char>>)
    ensures
        texts(parts@) == split_on(s@, sep),
        parts.len() >= 1,
{
    let mut parts: Vec<Vec<char>> = Vec::new();
    let mut cur: Vec<char> = Vec::new();
    let mut i: usize = 0;
    while i < s.len()
        invariant
            i <= s.len(),
            texts(parts@).push(cur@) == split_on(s@.take(i as int), sep),
        decreases s.len() - i,
    {
        let c = s[i];
        proof {
            assert(s@.take(i + 1).drop_last() =~= s@.take(i as int));
        }
        if c == sep {
            parts.push(cur);
            cur = Vec::new();
        } else {
            cur.push(c);
        }
        i += 1;
    }
    assert(s@.take(s.len() as int) =~= s@);
    proof {
        lemma_split_nonempty(s@, sep);
    }
    parts.push(cur);
    parts
}

/// The pieces of `parts` with `sep` between each two neighbours.
pub open spec fn joined(parts: Seq<Seq<char>>, sep: Seq<char>) -> Seq<char>
    decreases parts.len(),
{
    if parts.len() == 0 {
        Seq::<char>::empty()
    } else if parts.len() == 1 {
        parts[0]
    } else {
        joined(parts.drop_last(), sep) + sep + parts.last()
    }
}

/// Joins `parts`, putting `sep` between each two neighbours.
pub fn join(parts: &Vec<Vec<char>>, sep: &Vec<char>) -> (r: Vec<char>)
    ensures
        r@ == joined(texts(parts@), sep@),
{
    let mut r: Vec<char> = Vec::new();
    let mut i: usize = 0;
    while i < parts.len()
        invariant
            i <= parts.len(),
            r@ == joined(texts(parts@).take(i as int), sep@),
        decreases parts.len() - i,
    {
        proof {
            let t = texts(parts@).take(i + 1);
            assert(t.drop_last() =~= texts(parts@).take(i as int));
        }
        if i > 0 {
            append(&mut r, sep);
        }
        append(&mut r, &parts[i]);
        i += 1;
    }
    assert(texts(parts@).take(parts.len() as int) =~= texts(parts@));
    r
}

/// Whether `s` begins with the literal `p`.
pub fn starts_with_str(s: &Vec<char>, p: &str) -> (b: bool)
    ensures
        b == is_prefix(s@, p@),
{
    let pv = chars_of(p);
    starts_with(s, &pv)
}

/// Whether `s` ends with the literal `p`.
pub fn ends_with_str(s: &Vec<char>, p: &str) -> (b: bool)
    ensures
        b == is_suffix(s@, p@),
{
    let pv = chars_of(p);
    ends_with(s, &pv)
}

/// Whether the literal `p` occurs somewhere in `s`.
pub fn contains_str(s: &Vec<char>, p: &str) -> (b: bool)
    ensures
        b == occurs(s@, p@),
{
    let pv = chars_of(p);
    contains(s, &pv)
}

/// Whether `s` holds exactly the literal `p`.
pub fn same_str(s: &Vec<char>, p: &str) -> (b: bool)
    ensures
        b == (s@ == p@),
{
    let pv = chars_of(p);
    same(s, &pv)
}

/// Whether the character `c` occurs in `s`.
pub fn contains_char(s: &Vec<char>, c: char) -> (b: bool)
    ensures
        b == s@.contains(c),
{
    let mut i: usize = 0;
    while i < s.len()
        invariant
            i <= s.len(),
            forall|j: int| 0 <= j < i ==> s@[j] != c,
        decreases s.len() - i,
    {
        if s[i] == c {
            return true;
        }
        i += 1;
    }
    false
}

/// The number of bytes that `c` takes in UTF-8.
pub open spec fn utf8_width(c: char) -> nat {
    if (c as u32) < 0x80 {
        1
    } else if (c as u32) < 0x800 {
        2
    } else if (c as u32) < 0x10000 {
        3
    } else {
        4
    }
}

/// The number of bytes that `s` takes in UTF-8.
pub open spec fn byte_len(s: Seq<char>) -> nat
    decreases s.len(),
{
    if s.len() == 0 {
        0
    } else {
        byte_len(s.drop_last()) + utf8_width(s.last())
    }
}

/// Whether `s` takes fewer than `n` bytes in UTF-8.
pub fn byte_len_below(s: &Vec<char>, n: usize) -> (b: bool)
    ensures
        b == (byte_len(s@) < n),
{
    if n == 0 {
        return false;
    }
    let mut total: usize = 0;
    let mut i: usize = 0;
    while i < s.len()
        invariant
            i <= s.len(),
            total == byte_len(s@.take(i as int)),
            total < n,
        decreases s.len() - i,
    {
        let c: u32 = s[i] as u32;
        let w: usize = if c < 0x80 {
            1
        } else if c < 0x800 {
            2
        } else if c < 0x10000 {
            3
        } else {
            4
        };
        proof {
            assert(s@.take(i + 1).drop_last() =~= s@.take(i as int));
            lemma_byte_len_grows(s@, i + 1);
        }
        if w >= n - total {
            return false;
        }
        total = total + w;
        i += 1;
    }
    assert(s@.take(s.len() as int) =~= s@);
    total < n
}

/// A text takes at least as many bytes as any of its prefixes.
pub proof fn lemma_byte_len_grows(s: Seq<char>, k: int)
    requires
        0 <= k <= s.len(),
    ensures
        byte_len(s.take(k)) <= byte_len(s),
    decreases s.len(),
{
    if k == s.len() {
        assert(s.take(k) =~= s);
    } else {
        assert(s.drop_last().take(k) =~= s.take(k));
        lemma_byte_len_grows(s.drop_last(), k);
    }
}

/// The lower-case form of an ASCII capital letter; any other character
/// itself.
pub open spec fn ascii_lower(c: char) -> char {
    if 'A' <= c && c <= 'Z' {
        ((c as u8) + 32) as char
    } else {
        c
    }
}

/// `s` with every ASCII capital letter in lower case.
pub open spec fn ascii_lowered(s: Seq<char>) -> Seq<char> {
    s.map_values(|c: char| ascii_lower(c))
}

/// The lower-case form of an ASCII capital letter; any other character
/// itself.
pub fn to_ascii_lower(c: char) -> (r: char)
    ensures
        r == ascii_lower(c),
{
    if c >= 'A' && c <= 'Z' {
        ((c as u8) + 32) as char
    } else {
        c
    }
}

/// Puts every ASCII capital letter of `s` in lower case.
pub fn ascii_lowercase(s: &Vec<char>) -> (r: Vec<char>)
    ensures
        r@ == ascii_lowered(s@),
{
    let mut r: Vec<char> = Vec::new();
    let mut i: usize = 0;
    while i < s.len()
        invariant
            i <= s.len(),
            r@ == ascii_lowered(s@.take(i as int)),
        decreases s.len() - i,
    {
        r.push(to_ascii_lower(s[i]));
        i += 1;
    }
    r
}

/// White space, as Unicode defines it.
pub open spec fn is_space(c: char) -> bool {
    let u = c as u32;
    (0x09 <= u && u <= 0x0D) || u == 0x20 || u == 0x85 || u == 0xA0 || u == 0x1680 || (0x2000
        <= u && u <= 0x200A) || u == 0x2028 || u == 0x2029 || u == 0x202F || u == 0x205F || u
        == 0x3000
}

/// Whether `c` is white space.
pub fn is_whitespace(c: char) -> (b: bool)
    ensures
        b == is_space(c),
{
    let u: u32 = c as u32;
    (0x09 <= u && u <= 0x0D) || u == 0x20 || u == 0x85 || u == 0xA0 || u == 0x1680 || (0x2000
        <= u && u <= 0x200A) || u == 0x2028 || u == 0x2029 || u == 0x202F || u == 0x205F || u
        == 0x3000
}

/// The number of characters at the start of `s` that satisfy `pred`.
pub open spec fn leading(s: Seq<char>, pred: spec_fn(char) -> bool) -> nat
    decreases s.len(),
{
    if s.len() > 0 && pred(s[0]) {
        1 + leading(s.drop_first(), pred)
    } else {
        0
    }
}

/// The number of characters at the end of `s` that satisfy `pred`.
pub open spec fn trailing(s: Seq<char>, pred: spec_fn(char) -> bool) -> nat
    decreases s.len(),
{
    if s.len() > 0 && pred(s.last()) {
        1 + trailing(s.drop_last(), pred)
    } else {
        0
    }
}

/// `leading` is `n` when the first `n` characters satisfy `pred` and the
/// next one, if there is one, does not.
pub proof fn lemma_leading(s: Seq<char>, pred: spec_fn(char) -> bool, n: int)
    requires
        0 <= n <= s.len(),
        forall|j: int| 0 <= j < n ==> pred(#[trigger] s[j]),
        n == s.len() || !pred(s[n]),
    ensures
        leading(s, pred) == n,
    decreases n,
{
    if n > 0 {
        let t = s.drop_first();
        lemma_leading(t, pred, n - 1);
    }
}

/// `trailing` is `n` when the last `n` characters satisfy `pred` and the one
/// before them, if there is one, does not.
pub proof fn lemma_trailing(s: Seq<char>, pred: spec_fn(char) -> bool, n: int)
    requires
        0 <= n <= s.len(),
        forall|j: int| s.len() - n <= j < s.len() ==> pred(#[trigger] s[j]),
        n == s.len() || !pred(s[s.len() - n - 1]),
    ensures
        trailing(s, pred) == n,
    decreases n,
{
    if n > 0 {
        let t = s.drop_last();
        lemma_trailing(t, pred, n - 1);
    }
}

/// `s` without the white space at its start.
pub open spec fn trimmed_start(s: Seq<char>) -> Seq<char> {
    s.skip(leading(s, space()) as int)
}

/// `s` without the white space at its start and at its end.
pub open spec fn trimmed(s: Seq<char>) -> Seq<char> {
    let t = trimmed_start(s);
    t.take(t.len() - trailing(t, space()))
}

/// The test for being the character `c`.
pub open spec fn is_char(c: char) -> spec_fn(char) -> bool {
    |x: char| x == c
}

/// The test for being white space.
pub open spec fn space() -> spec_fn(char) -> bool {
    |x: char| is_space(x)
}

/// `s` without the characters `c` at its start.
pub open spec fn without_leading(s: Seq<char>, c: char) -> Seq<char> {
    s.skip(leading(s, is_char(c)) as int)
}

/// Removes the white space at the start of `s`.
pub fn trim_start(s: &Vec<char>) -> (r: Vec<char>)
    ensures
        r@ == trimmed_start(s@),
{
    let mut i: usize = 0;
    while i < s.len() && is_whitespace(s[i])
        invariant
            i <= s.len(),
            forall|j: int| 0 <= j < i ==> is_space(#[trigger] s@[j]),
        decreases s.len() - i,
    {
        i += 1;
    }
    proof {
        lemma_leading(s@, space(), i as int);
    }
    slice(s, i, s.len())
}

/// Removes the white space at the start and at the end of `s`.
pub fn trim(s: &Vec<char>) -> (r: Vec<char>)
    ensures
        r@ == trimmed(s@),
{
    let t = trim_start(s);
    let mut n: usize = t.len();
    while n > 0 && is_whitespace(t[n - 1])
        invariant
            n <= t.len(),
            forall|j: int| n <= j < t.len() ==> is_space(#[trigger] t@[j]),
        decreases n,
    {
        n -= 1;
    }
    proof {
        lemma_trailing(t@, space(), t.len() - n);
    }
    slice(&t, 0, n)
}

/// Removes the characters `c` at the start of `s`.
pub fn strip_leading(s: &Vec<char>, c: char) -> (r: Vec<char>)
    ensures
        r@ == without_leading(s@, c),
{
    let mut i: usize = 0;
    while i < s.len() && s[i] == c
        invariant
            i <= s.len(),
            forall|j: int| 0 <= j < i ==> #[trigger] s@[j] == c,
        decreases s.len() - i,
    {
        i += 1;
    }
    proof {
        lemma_leading(s@, is_char(c), i as int);
    }
    slice(s, i, s.len())
}

/// The lower-case form of a text, as Unicode defines it.
pub uninterp spec fn lowercase(s: Seq<char>) -> Seq<char>;

/// `str::to_lowercase` of std: the lower-case form of the string.
#[verifier::external_body]
fn str_to_lowercase(s: &str) -> (r: String)
    ensures
        r@ == lowercase(s@),
{
    s.to_lowercase()
}

/// Puts `s` in lower case.
pub fn to_lowercase(s: &Vec<char>) -> (r: Vec<char>)
    ensures
        r@ == lowercase(s@),
{
    let text = string_of(s);
    let lower = str_to_lowercase(text.as_str());
    chars_of(lower.as_str())
}

/// The character vectors of a list of strings.
pub fn texts_of(list: &Vec<String>) -> (out: Vec<Vec<char>>)
    ensures
        texts(out@) == strings(list@),
{
    let mut out: Vec<Vec<char>> = Vec::new();
    let mut i: usize = 0;
    while i < list.len()
        invariant
            i <= list.len(),
            texts(out@) == strings(list@.take(i as int)),
        decreases list.len() - i,
    {
        let ghost before = out@;
        out.push(chars_of(list[i].as_str()));
        proof {
            assert(texts(out@) =~= texts(before).push(list@[i as int]@));
        }
        i += 1;
    }
    out
}

/// The strings of a list of character vectors.
pub fn strings_of(list: &Vec<Vec<char>>) -> (out: Vec<String>)
    ensures
        strings(out@) == texts(list@),
{
    let mut out: Vec<String> = Vec::new();
    let mut i: usize = 0;
    while i < list.len()
        invariant
            i <= list.len(),
            strings(out@) == texts(list@.take(i as int)),
        decreases list.len() - i,
    {
        let ghost before = out@;
        out.push(string_of(&list[i]));
        proof {
            assert(strings(out@) =~= strings(before).push(list@[i as int]@));
        }
        i += 1;
    }
    out
}

/// A copy of `s`.
pub fn copy(s: &Vec<char>) -> (r: Vec<char>)
    ensures
        r@ == s@,
{
    let r = slice(s, 0, s.len());
    r
}

/// The character for a digit.
pub open spec fn digit(d: int) -> char {
    ((('0' as u8) + d) as u8) as char
}

/// The decimal form of a number.
pub open spec fn decimal(n: nat) -> Seq<char>
    decreases n,
{
    if n < 10 {
        seq![digit(n as int)]
    } else {
        decimal(n / 10).push(digit((n % 10) as int))
    }
}

/// The decimal form of a number, with a `0` in front of a single digit.
pub open spec fn two_digits(n: nat) -> Seq<char> {
    if n < 10 {
        seq!['0'] + decimal(n)
    } else {
        decimal(n)
    }
}

/// Writes a number in decimal form.
pub fn to_decimal(n: u64) -> (r: Vec<char>)
    ensures
        r@ == decimal(n as nat),
    decreases n,
{
    let d: u8 = (n % 10) as u8;
    let c: char = (48u8 + d) as char;
    if n < 10 {
        let r: Vec<char> = vec![c];
        r
    } else {
        let mut r = to_decimal(n / 10);
        r.push(c);
        r
    }
}

/// Writes a number in decimal form, with a `0` in front of a single digit.
pub fn to_two_digits(n: u64) -> (r: Vec<char>)
    ensures
        r@ == two_digits(n as nat),
{
    let mut r: Vec<char> = Vec::new();
    if n < 10 {
        r.push('0');
    }
    append(&mut r, &to_decimal(n));
    r
}

/// `s` without the carriage return at its end, if there is one.
pub open spec fn without_cr(s: Seq<char>) -> Seq<char> {
    if s.len() > 0 && s.last() == '\r' {
        s.drop_last()
    } else {
        s
    }
}

/// The lines of a text. A line ends with a line feed, or with a carriage
/// return and a line feed; what follows the last line feed is a line when
/// it is not empty.
pub open spec fn rows(content: Seq<char>) -> Seq<Seq<char>> {
    let parts = split_on(content, '\n');
    let ended = parts.drop_last().map_values(|p: Seq<char>| without_cr(p));
    if parts.last().len() == 0 {
        ended
    } else {
        ended.push(parts.last())
    }
}

/// Splits a text into its lines.
pub fn lines(content: &Vec<char>) -> (out: Vec<Vec<char>>)
    ensures
        texts(out@) == rows(content@),
{
    let parts = split(content, '\n');
    let mut out: Vec<Vec<char>> = Vec::new();
    let last: usize = parts.len() - 1;
    let mut i: usize = 0;
    while i < last
        invariant
            i <= last,
            last == parts.len() - 1,
            out.len() == i,
            forall|k: int| 0 <= k < i ==> (#[trigger] out@[k])@ == without_cr(parts@[k]@),
        decreases last - i,
    {
        let p = &parts[i];
        let n = p.len();
        if n > 0 && p[n - 1] == '\r' {
            let r = slice(p, 0, n - 1);
            out.push(r);
        } else {
            out.push(copy(p));
        }
        i += 1;
    }
    if parts[last].len() > 0 {
        out.push(copy(&parts[last]));
    }
    out
}

/// The line ending of a text: a carriage return and a line feed when the
/// text holds the two in a row, else a line feed.
pub open spec fn line_ending(content: Seq<char>) -> Seq<char> {
    if occurs(content, seq!['\r', '\n']) {
        seq!['\r', '\n']
    } else {
        seq!['\n']
    }
}

/// The line ending of a text.
pub fn line_ending_of(content: &Vec<char>) -> (e: Vec<char>)
    ensures
        e@ == line_ending(content@),
{
    let mark: Vec<char> = vec!['\r', '\n'];
    if contains(content, &mark) {
        mark
    } else {
        let e: Vec<char> = vec!['\n'];
        e
    }
}

/// Index of the first text of `list` that satisfies `pred`.
pub open spec fn first_where(list: Seq<Seq<char>>, pred: spec_fn(Seq<char>) -> bool) -> Option<
    int,
>
    decreases list.len(),
{
    if list.len() == 0 {
        None
    } else {
        let before = first_where(list.drop_last(), pred);
        if before is Some {
            before
        } else if pred(list.last()) {
            Some(list.len() - 1)
        } else {
            None
        }
    }
}

/// `first_where` returns the least index of a text that satisfies `pred`,
/// and `None` exactly when there is none.
pub proof fn lemma_first_where(list: Seq<Seq<char>>, pred: spec_fn(Seq<char>) -> bool)
    ensures
        match first_where(list, pred) {
            Some(i) => 0 <= i < list.len() && pred(list[i]) && forall|j: int|
                0 <= j < i ==> !pred(#[trigger] list[j]),
            None => forall|j: int| 0 <= j < list.len() ==> !pred(#[trigger] list[j]),
        },
    decreases list.len(),
{
    if list.len() > 0 {
        let init = list.drop_last();
        lemma_first_where(init, pred);
        match first_where(init, pred) {
            Some(i) => {
                assert forall|j: int| 0 <= j < i implies !pred(#[trigger] list[j]) by {
                    assert(init[j] == list[j]);
                }
            },
            None => {
                assert forall|j: int| 0 <= j < list.len() - 1 implies !pred(#[trigger] list[j]) by {
                    assert(init[j] == list[j]);
                }
            },
        }
    }
}

/// An index that `first_where` finds in a part of a list is the one it
/// finds in the whole list.
pub proof fn lemma_first_where_extends(
    list: Seq<Seq<char>>,
    pred: spec_fn(Seq<char>) -> bool,
    n: int,
)
    requires
        0 <= n <= list.len(),
        first_where(list.take(n), pred) is Some,
    ensures
        first_where(list, pred) == first_where(list.take(n), pred),
    decreases list.len() - n,
{
    if n < list.len() {
        assert(list.take(n + 1).drop_last() =~= list.take(n));
        lemma_first_where_extends(list, pred, n + 1);
    } else {
        assert(list.take(n) =~= list);
    }
}

/// The texts of `list` that do not satisfy `pred`, in order.
pub open spec fn without_where(list: Seq<Seq<char>>, pred: spec_fn(Seq<char>) -> bool) -> Seq<
    Seq<char>,
>
    decreases list.len(),
{
    if list.len() == 0 {
        list
    } else if pred(list.last()) {
        without_where(list.drop_last(), pred)
    } else {
        without_where(list.drop_last(), pred).push(list.last())
    }
}

/// The text made of `list`, with `ending` between each two lines, and at
/// the end as well when `closed` is set.
pub open spec fn laid_out(list: Seq<Seq<char>>, ending: Seq<char>, closed: bool) -> Seq<char> {
    if closed {
        joined(list, ending) + ending
    } else {
        joined(list, ending)
    }
}

/// Lays the lines of `list` out as one text.
pub fn lay_out(list: &Vec<Vec<char>>, ending: &Vec<char>, closed: bool) -> (r: Vec<char>)
    ensures
        r@ == laid_out(texts(list@), ending@, closed),
{
    let mut r = join(list, ending);
    if closed {
        append(&mut r, ending);
    }
    r
}

/// Whether `s` ends with the character `c`.
pub fn ends_with_char(s: &Vec<char>, c: char) -> (b: bool)
    ensures
        b == (s@.len() > 0 && s@.last() == c),
{
    s.len() > 0 && s[s.len() - 1] == c
}

/// A text without a separator is the one piece of its split.
pub proof fn lemma_split_single(s: Seq<char>, sep: char)
    ensures
        split_on(s, sep).len() == 1 ==> split_on(s, sep)[0] == s,
    decreases s.len(),
{
    if s.len() > 0 {
        lemma_split_nonempty(s.drop_last(), sep);
        lemma_split_single(s.drop_last(), sep);
    }
}

/// A text that is not empty has a line.
pub proof fn lemma_rows_nonempty(content: Seq<char>)
    requires
        content.len() > 0,
    ensures
        rows(content).len() >= 1,
{
    lemma_split_nonempty(content, '\n');
    lemma_split_single(content, '\n');
}

/// No piece of a split holds the separator.
pub proof fn lemma_split_pieces(s: Seq<char>, sep: char)
    ensures
        forall|i: int|
            0 <= i < split_on(s, sep).len() ==> !(#[trigger] split_on(s, sep)[i]).contains(sep),
    decreases s.len(),
{
    if s.len() > 0 {
        lemma_split_pieces(s.drop_last(), sep);
        lemma_split_nonempty(s.drop_last(), sep);
    }
}

/// A text without the separator is the one piece of its split.
pub proof fn lemma_split_whole(s: Seq<char>, sep: char)
    requires
        !s.contains(sep),
    ensures
        split_on(s, sep) == seq![s],
    decreases s.len(),
{
    if s.len() > 0 {
        let init = s.drop_last();
        lemma_split_whole(init, sep);
        assert(init.push(s.last()) =~= s);
    } else {
        assert(s =~= Seq::<char>::empty());
    }
}

/// The pieces of two texts with a separator between them are the pieces
/// of the first, then the pieces of the second.
pub proof fn lemma_split_around(a: Seq<char>, b: Seq<char>, sep: char)
    ensures
        split_on(a + seq![sep] + b, sep) == split_on(a, sep) + split_on(b, sep),
    decreases b.len(),
{
    let whole = a + seq![sep] + b;
    lemma_split_nonempty(a, sep);
    if b.len() == 0 {
        assert(whole.drop_last() =~= a);
    } else {
        let init = b.drop_last();
        assert(whole.drop_last() =~= a + seq![sep] + init);
        lemma_split_around(a, init, sep);
        lemma_split_nonempty(init, sep);
    }
}

/// Splitting what was joined gives the pieces that were joined, when there
/// is a piece and none of them holds the separator.
pub proof fn lemma_split_joined(parts: Seq<Seq<char>>, sep: char)
    requires
        parts.len() >= 1,
        forall|i: int| 0 <= i < parts.len() ==> !(#[trigger] parts[i]).contains(sep),
    ensures
        split_on(joined(parts, seq![sep]), sep) == parts,
    decreases parts.len(),
{
    if parts.len() == 1 {
        lemma_split_whole(parts[0], sep);
    } else {
        let init = parts.drop_last();
        lemma_split_joined(init, sep);
        lemma_split_around(joined(init, seq![sep]), parts.last(), sep);
        lemma_split_whole(parts.last(), sep);
    }
}

/// What is joined from two or more pieces holds the separator; what is
/// joined from fewer holds it only where a piece does.
pub proof fn lemma_joined_separator(parts: Seq<Seq<char>>, sep: char)
    requires
        forall|i: int| 0 <= i < parts.len() ==> !(#[trigger] parts[i]).contains(sep),
    ensures
        joined(parts, seq![sep]).contains(sep) <==> parts.len() >= 2,
{
    if parts.len() >= 2 {
        let j = joined(parts, seq![sep]);
        let at = joined(parts.drop_last(), seq![sep]).len() as int;
        assert(j[at] == sep);
    } else if parts.len() == 1 {
    }
}

/// What `leading` counts: the characters at the start that satisfy `pred`,
/// all of them, and no more than there are. The one behind them, if there
/// is one, does not satisfy `pred`.
pub proof fn lemma_leading_run(s: Seq<char>, pred: spec_fn(char) -> bool)
    ensures
        leading(s, pred) <= s.len(),
        forall|i: int| 0 <= i < leading(s, pred) ==> pred(#[trigger] s[i]),
        leading(s, pred) < s.len() ==> !pred(s[leading(s, pred) as int]),
    decreases s.len(),
{
    if s.len() > 0 && pred(s[0]) {
        let r = s.drop_first();
        lemma_leading_run(r, pred);
        assert forall|i: int| 0 <= i < leading(s, pred) implies pred(#[trigger] s[i]) by {
            if i > 0 {
                assert(s[i] == r[i - 1]);
            }
        }
    }
}

/// What `trailing` counts: the characters at the end that satisfy `pred`,
/// all of them, and no more than there are. The one before them, if there
/// is one, does not satisfy `pred`.
pub proof fn lemma_trailing_run(s: Seq<char>, pred: spec_fn(char) -> bool)
    ensures
        trailing(s, pred) <= s.len(),
        forall|i: int| s.len() - trailing(s, pred) <= i < s.len() ==> pred(#[trigger] s[i]),
        trailing(s, pred) < s.len() ==> !pred(s[s.len() - trailing(s, pred) - 1]),
    decreases s.len(),
{
    if s.len() > 0 && pred(s.last()) {
        let r = s.drop_last();
        lemma_trailing_run(r, pred);
        assert forall|i: int| s.len() - trailing(s, pred) <= i < s.len() implies pred(
            #[trigger] s[i],
        ) by {
            if i < s.len() - 1 {
                assert(s[i] == r[i]);
            }
        }
    }
}

/// A text without white space around it neither begins nor ends with white
/// space, and stays as it is when the white space around it is taken away
/// again.
pub proof fn lemma_trimmed_twice(s: Seq<char>)
    ensures
        trimmed(s).len() > 0 ==> !is_space(trimmed(s)[0]) && !is_space(trimmed(s).last()),
        trimmed(trimmed(s)) == trimmed(s),
{
    let t = trimmed_start(s);
    let r = trimmed(s);
    lemma_leading_run(s, space());
    lemma_trailing_run(t, space());
    lemma_leading(r, space(), 0);
    lemma_trailing(r, space(), 0);
}

/// A text without the separator, put behind another text, is put behind
/// that text's last piece.
pub proof fn lemma_split_extended(a: Seq<char>, t: Seq<char>, sep: char)
    requires
        !t.contains(sep),
    ensures
        split_on(a + t, sep) == split_on(a, sep).drop_last().push(split_on(a, sep).last() + t),
    decreases t.len(),
{
    lemma_split_nonempty(a, sep);
    let pieces = split_on(a, sep);
    if t.len() > 0 {
        let init = t.drop_last();
        lemma_split_extended(a, init, sep);
        assert((a + t).drop_last() =~= a + init);
        assert((pieces.last() + init).push(t.last()) =~= pieces.last() + t);
    }
}

/// A text with a character put in front takes the bytes of that character
/// and those of the text.
pub proof fn lemma_byte_len_front(c: char, t: Seq<char>)
    ensures
        byte_len(seq![c] + t) == utf8_width(c) + byte_len(t),
    decreases t.len(),
{
    let whole = seq![c] + t;
    if t.len() == 0 {
        assert(whole.drop_last() =~= t);
    } else {
        assert(whole.drop_last() =~= seq![c] + t.drop_last());
        lemma_byte_len_front(c, t.drop_last());
    }
}

/// `byte_len` is the length of the UTF-8 encoding.
pub proof fn lemma_byte_len_is_utf8(s: Seq<char>)
    ensures
        byte_len(s) == vstd::utf8::encode_utf8(s).len(),
    decreases s.len(),
{
    if s.len() > 0 {
        let c = s[0];
        let t = s.drop_first();
        lemma_byte_len_is_utf8(t);
        lemma_byte_len_front(c, t);
        assert(seq![c] + t =~= s);
        vstd::utf8::char_is_scalar(c);
    }
}

} // verus!
