//! The settings file: lines of the form `key = value`, and how the values
//! of the settings are read.

use crate::text::{
    chars_of, contains, find, index_of, is_prefix, lemma_index_from, lines, lowercase, occurs,
    rows, same, same_str, slice, split, split_on, starts_with_str, string_of, strings,
    strip_leading, texts, to_lowercase, trim, trimmed, without_leading,
};
use vstd::prelude::*;

verus! {

/// One setting: a key and its value.
pub struct Setting {
    pub key: String,
    pub value: String,
}

/// The setting that a line of the settings file makes: none for an empty
/// line, a line that begins with `#` and a line without `=`; else the key
/// before the first `=` and the value behind it, each without the white
/// space around it.
pub open spec fn setting_of(line: Seq<char>) -> Option<(Seq<char>, Seq<char>)> {
    let t = trimmed(line);
    if t.len() == 0 || is_prefix(t, "#"@) {
        None
    } else {
        match index_of(t, seq!['=']) {
            Some(eq) => Some(
                (trimmed(t.subrange(0, eq)), trimmed(t.subrange(eq + 1, t.len() as int))),
            ),
            None => None,
        }
    }
}

/// The settings that the lines of `list` make, in order.
pub open spec fn settings_of(list: Seq<Seq<char>>) -> Seq<(Seq<char>, Seq<char>)>
    decreases list.len(),
{
    if list.len() == 0 {
        Seq::<(Seq<char>, Seq<char>)>::empty()
    } else {
        match setting_of(list.last()) {
            Some(s) => settings_of(list.drop_last()).push(s),
            None => settings_of(list.drop_last()),
        }
    }
}

/// The keys and values that a list of settings holds.
pub open spec fn pairs(settings: Seq<Setting>) -> Seq<(Seq<char>, Seq<char>)> {
    settings.map_values(|s: Setting| (s.key@, s.value@))
}

/// The value of `key`: that of the last setting with this key.
pub open spec fn value_of(settings: Seq<(Seq<char>, Seq<char>)>, key: Seq<char>) -> Option<
    Seq<char>,
>
    decreases settings.len(),
{
    if settings.len() == 0 {
        None
    } else if settings.last().0 == key {
        Some(settings.last().1)
    } else {
        value_of(settings.drop_last(), key)
    }
}

/// Reads the settings of a settings file.
pub fn parse_config(content: &str) -> (settings: Vec<Setting>)
    ensures
        pairs(settings@) == settings_of(rows(content@)),
{
    let list = lines(&chars_of(content));
    let ghost all = texts(list@);
    let mut settings: Vec<Setting> = Vec::new();
    let eq: Vec<char> = vec!['='];
    let mut i: usize = 0;
    while i < list.len()
        invariant
            i <= list.len(),
            all == texts(list@),
            eq@ == seq!['='],
            pairs(settings@) == settings_of(all.take(i as int)),
        decreases list.len() - i,
    {
        proof {
            assert(all.take(i + 1).drop_last() =~= all.take(i as int));
        }
        let t = trim(&list[i]);
        if t.len() > 0 && !starts_with_str(&t, "#") {
            proof {
                lemma_index_from(t@, eq@, 0);
            }
            let n: usize = t.len();
            match find(&t, &eq) {
                Some(at) => {
                    let key = string_of(&trim(&slice(&t, 0, at)));
                    let value = string_of(&trim(&slice(&t, at + 1, n)));
                    settings.push(Setting { key, value });
                },
                None => {},
            }
        }
        i += 1;
    }
    assert(all.take(all.len() as int) =~= all);
    settings
}

/// The value of the setting `key`, if it is set.
pub fn lookup(settings: &Vec<Setting>, key: &str) -> (r: Option<String>)
    ensures
        match r {
            Some(v) => value_of(pairs(settings@), key@) == Some(v@),
            None => value_of(pairs(settings@), key@) is None,
        },
{
    let k = chars_of(key);
    let mut n: usize = settings.len();
    assert(pairs(settings@).take(n as int) =~= pairs(settings@));
    while n > 0
        invariant
            n <= settings.len(),
            k@ == key@,
            value_of(pairs(settings@), key@) == value_of(pairs(settings@).take(n as int), key@),
        decreases n,
    {
        let s = &settings[n - 1];
        proof {
            let p = pairs(settings@).take(n as int);
            assert(p.drop_last() =~= pairs(settings@).take(n - 1));
        }
        if same(&chars_of(s.key.as_str()), &k) {
            return Some(s.value.clone());
        }
        n -= 1;
    }
    None
}

/// A value that switches a setting on: `true`, `yes` or `1`, in any case.
pub open spec fn switched_on(value: Seq<char>) -> bool {
    lowercase(value) == "true"@ || lowercase(value) == "yes"@ || lowercase(value) == "1"@
}

/// Whether the setting `key` is switched on; `default` where it is not set.
pub fn parse_bool(settings: &Vec<Setting>, key: &str, default: bool) -> (b: bool)
    ensures
        b == match value_of(pairs(settings@), key@) {
            Some(v) => switched_on(v),
            None => default,
        },
{
    match lookup(settings, key) {
        Some(v) => {
            let lower = to_lowercase(&chars_of(v.as_str()));
            same_str(&lower, "true") || same_str(&lower, "yes") || same_str(&lower, "1")
        },
        None => default,
    }
}

/// The items of a list written with commas: each without the white space
/// around it, the empty ones left out.
pub open spec fn items_of(pieces: Seq<Seq<char>>) -> Seq<Seq<char>>
    decreases pieces.len(),
{
    if pieces.len() == 0 {
        pieces
    } else if trimmed(pieces.last()).len() == 0 {
        items_of(pieces.drop_last())
    } else {
        items_of(pieces.drop_last()).push(trimmed(pieces.last()))
    }
}

/// The file extensions of a list written with commas: each without the
/// white space around it and the dots in front of it, the empty ones left
/// out.
pub open spec fn extensions_of(pieces: Seq<Seq<char>>) -> Seq<Seq<char>>
    decreases pieces.len(),
{
    if pieces.len() == 0 {
        pieces
    } else if without_leading(trimmed(pieces.last()), '.').len() == 0 {
        extensions_of(pieces.drop_last())
    } else {
        extensions_of(pieces.drop_last()).push(without_leading(trimmed(pieces.last()), '.'))
    }
}

/// A file extension without the dots in front of it.
pub fn normalize_extension(ext: &str) -> (r: String)
    ensures
        r@ == without_leading(ext@, '.'),
{
    string_of(&strip_leading(&chars_of(ext), '.'))
}

/// Reads a list written with commas.
pub fn read_list(value: &str) -> (r: Vec<String>)
    ensures
        strings(r@) == items_of(split_on(value@, ',')),
{
    let pieces = split(&chars_of(value), ',');
    let ghost all = texts(pieces@);
    let mut r: Vec<String> = Vec::new();
    let mut i: usize = 0;
    while i < pieces.len()
        invariant
            i <= pieces.len(),
            all == texts(pieces@),
            strings(r@) == items_of(all.take(i as int)),
        decreases pieces.len() - i,
    {
        proof {
            assert(all.take(i + 1).drop_last() =~= all.take(i as int));
        }
        let t = trim(&pieces[i]);
        if t.len() > 0 {
            r.push(string_of(&t));
        }
        i += 1;
    }
    assert(all.take(all.len() as int) =~= all);
    r
}

/// Reads a list of file extensions written with commas.
pub fn read_extensions(value: &str) -> (r: Vec<String>)
    ensures
        strings(r@) == extensions_of(split_on(value@, ',')),
{
    let pieces = split(&chars_of(value), ',');
    let ghost all = texts(pieces@);
    let mut r: Vec<String> = Vec::new();
    let mut i: usize = 0;
    while i < pieces.len()
        invariant
            i <= pieces.len(),
            all == texts(pieces@),
            strings(r@) == extensions_of(all.take(i as int)),
        decreases pieces.len() - i,
    {
        proof {
            assert(all.take(i + 1).drop_last() =~= all.take(i as int));
        }
        let t = strip_leading(&trim(&pieces[i]), '.');
        if t.len() > 0 {
            r.push(string_of(&t));
        }
        i += 1;
    }
    assert(all.take(all.len() as int) =~= all);
    r
}

/// The list that the setting `key` holds; empty where it is not set.
pub fn parse_list(settings: &Vec<Setting>, key: &str) -> (r: Vec<String>)
    ensures
        strings(r@) == match value_of(pairs(settings@), key@) {
            Some(v) => items_of(split_on(v, ',')),
            None => Seq::<Seq<char>>::empty(),
        },
{
    match lookup(settings, key) {
        Some(v) => read_list(v.as_str()),
        None => {
            let r: Vec<String> = Vec::new();
            r
        },
    }
}

/// The file extensions that the setting `key` holds; `txt` where it is not
/// set.
pub fn parse_extensions(settings: &Vec<Setting>, key: &str) -> (r: Vec<String>)
    ensures
        strings(r@) == match value_of(pairs(settings@), key@) {
            Some(v) => extensions_of(split_on(v, ',')),
            None => seq!["txt"@],
        },
{
    match lookup(settings, key) {
        Some(v) => read_extensions(v.as_str()),
        None => {
            let mut r: Vec<String> = Vec::new();
            r.push("txt".to_owned());
            r
        },
    }
}

/// The comment marks that the setting `key` holds; `!` where it is not set.
pub fn parse_comment_chars(settings: &Vec<Setting>, key: &str) -> (r: Vec<String>)
    ensures
        strings(r@) == match value_of(pairs(settings@), key@) {
            Some(v) => items_of(split_on(v, ',')),
            None => seq!["!"@],
        },
{
    match lookup(settings, key) {
        Some(v) => read_list(v.as_str()),
        None => {
            let mut r: Vec<String> = Vec::new();
            r.push("!".to_owned());
            r
        },
    }
}

/// A name is ignored when one of the patterns occurs in it.
pub open spec fn ignored(name: Seq<char>, patterns: Seq<String>) -> bool {
    exists|i: int| 0 <= i < patterns.len() && occurs(name, (#[trigger] patterns[i])@)
}

/// Whether a file of this name is left alone.
pub fn should_ignore_file(filename: &str, ignore_files: &[String]) -> (b: bool)
    ensures
        b == ignored(filename@, ignore_files@),
{
    let name = chars_of(filename);
    let mut i: usize = 0;
    while i < ignore_files.len()
        invariant
            i <= ignore_files.len(),
            name@ == filename@,
            forall|k: int| 0 <= k < i ==> !occurs(name@, (#[trigger] ignore_files@[k])@),
        decreases ignore_files.len() - i,
    {
        if contains(&name, &chars_of(ignore_files[i].as_str())) {
            return true;
        }
        i += 1;
    }
    false
}

/// A path is ignored when one of its parts is.
pub open spec fn path_ignored(parts: Seq<String>, patterns: Seq<String>) -> bool {
    exists|i: int| 0 <= i < parts.len() && ignored((#[trigger] parts[i])@, patterns)
}

/// Whether a directory is left alone, given the names of the parts of its
/// path.
pub fn should_ignore_dir(parts: &[String], ignore_dirs: &[String]) -> (b: bool)
    ensures
        b == path_ignored(parts@, ignore_dirs@),
{
    let mut i: usize = 0;
    while i < parts.len()
        invariant
            i <= parts.len(),
            forall|k: int| 0 <= k < i ==> !ignored((#[trigger] parts@[k])@, ignore_dirs@),
        decreases parts.len() - i,
    {
        if should_ignore_file(parts[i].as_str(), ignore_dirs) {
            return true;
        }
        i += 1;
    }
    false
}

} // verus!
