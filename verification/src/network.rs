//! Canonical form of a network rule: its text without needless wildcards,
//! its options in canonical form, each once, sorted, and its domains merged
//! into one option.

use crate::domains::{sort_tokens, sorted_tokens};
use crate::pattern::{captures, group, group_text, regex_captures};
use crate::text::{
    append, chars_of, contains_str, copy, find, index_of, is_prefix, join, joined,
    lemma_index_from, lowercase, occurs, same_str, slice, split, split_on, starts_with_str,
    string_of, strings, strip_leading, texts, to_lowercase, without_leading,
};
use crate::unique::{first_occurrences, unique};
use vstd::prelude::*;

verus! {

/// The option names that are known by name.
pub open spec fn named_option(o: Seq<char>) -> bool {
    o == "collapse"@
        || o == "csp"@
        || o == "csp=frame-src"@
        || o == "csp=img-src"@
        || o == "csp=media-src"@
        || o == "csp=script-src"@
        || o == "csp=worker-src"@
        || o == "document"@
        || o == "elemhide"@
        || o == "font"@
        || o == "genericblock"@
        || o == "generichide"@
        || o == "image"@
        || o == "match-case"@
        || o == "media"@
        || o == "object-subrequest"@
        || o == "object"@
        || o == "other"@
        || o == "ping"@
        || o == "popup"@
        || o == "script"@
        || o == "stylesheet"@
        || o == "subdocument"@
        || o == "third-party"@
        || o == "webrtc"@
        || o == "websocket"@
        || o == "xmlhttprequest"@
        || o == "xhr"@
        || o == "css"@
        || o == "1p"@
        || o == "3p"@
        || o == "frame"@
        || o == "doc"@
        || o == "ghide"@
        || o == "xml"@
        || o == "iframe"@
        || o == "first-party"@
        || o == "strict1p"@
        || o == "strict3p"@
        || o == "ehide"@
        || o == "shide"@
        || o == "specifichide"@
        || o == "all"@
        || o == "badfilter"@
        || o == "important"@
        || o == "popunder"@
        || o == "empty"@
        || o == "cname"@
        || o == "inline-script"@
        || o == "removeparam"@
        || o == "redirect-rule"@
        || o == "_____"@
        || o == "-----"@
        || o == "network"@
        || o == "content"@
        || o == "extension"@
        || o == "jsinject"@
        || o == "stealth"@
        || o == "cookie"@
        || o == "rewrite=abp-resource:1x1-transparent-gif"@
        || o == "rewrite=abp-resource:2x2-transparent-png"@
        || o == "rewrite=abp-resource:32x32-transparent-png"@
        || o == "rewrite=abp-resource:3x2-transparent-png"@
        || o == "rewrite=abp-resource:blank-css"@
        || o == "rewrite=abp-resource:blank-html"@
        || o == "rewrite=abp-resource:blank-js"@
        || o == "rewrite=abp-resource:blank-mp3"@
        || o == "rewrite=abp-resource:blank-mp4"@
        || o == "rewrite=abp-resource:blank-text"@
}

/// The beginnings of the options that carry a value.
pub open spec fn valued_option(o: Seq<char>) -> bool {
    is_prefix(o, "csp="@)
        || is_prefix(o, "redirect="@)
        || is_prefix(o, "redirect-rule="@)
        || is_prefix(o, "rewrite="@)
        || is_prefix(o, "replace="@)
        || is_prefix(o, "header="@)
        || is_prefix(o, "permissions="@)
        || is_prefix(o, "to="@)
        || is_prefix(o, "from="@)
        || is_prefix(o, "ipaddress="@)
        || is_prefix(o, "method="@)
        || is_prefix(o, "denyallow="@)
        || is_prefix(o, "removeparam="@)
        || is_prefix(o, "urltransform="@)
        || is_prefix(o, "responseheader="@)
        || is_prefix(o, "sitekey="@)
        || is_prefix(o, "app="@)
        || is_prefix(o, "urlskip="@)
        || is_prefix(o, "uritransform="@)
        || is_prefix(o, "reason="@)
        || is_prefix(o, "addheader="@)
        || is_prefix(o, "referrerpolicy="@)
        || is_prefix(o, "cookie="@)
        || is_prefix(o, "removeheader="@)
        || is_prefix(o, "jsonprune="@)
        || is_prefix(o, "stealth="@)
}

/// An option, without the `~` in front, that this library knows.
pub open spec fn known_option(o: Seq<char>) -> bool {
    named_option(o) || valued_option(o)
}

fn is_named_option(o: &Vec<char>) -> (b: bool)
    ensures
        b == named_option(o@),
{
    if same_str(o, "collapse")
        || same_str(o, "csp")
        || same_str(o, "csp=frame-src")
        || same_str(o, "csp=img-src")
        || same_str(o, "csp=media-src")
        || same_str(o, "csp=script-src")
        || same_str(o, "csp=worker-src")
        || same_str(o, "document")
        || same_str(o, "elemhide")
        || same_str(o, "font") {
        return true;
    }
    if same_str(o, "genericblock")
        || same_str(o, "generichide")
        || same_str(o, "image")
        || same_str(o, "match-case")
        || same_str(o, "media")
        || same_str(o, "object-subrequest")
        || same_str(o, "object")
        || same_str(o, "other")
        || same_str(o, "ping")
        || same_str(o, "popup") {
        return true;
    }
    if same_str(o, "script")
        || same_str(o, "stylesheet")
        || same_str(o, "subdocument")
        || same_str(o, "third-party")
        || same_str(o, "webrtc")
        || same_str(o, "websocket")
        || same_str(o, "xmlhttprequest")
        || same_str(o, "xhr")
        || same_str(o, "css")
        || same_str(o, "1p") {
        return true;
    }
    if same_str(o, "3p")
        || same_str(o, "frame")
        || same_str(o, "doc")
        || same_str(o, "ghide")
        || same_str(o, "xml")
        || same_str(o, "iframe")
        || same_str(o, "first-party")
        || same_str(o, "strict1p")
        || same_str(o, "strict3p")
        || same_str(o, "ehide") {
        return true;
    }
    if same_str(o, "shide")
        || same_str(o, "specifichide")
        || same_str(o, "all")
        || same_str(o, "badfilter")
        || same_str(o, "important")
        || same_str(o, "popunder")
        || same_str(o, "empty")
        || same_str(o, "cname")
        || same_str(o, "inline-script")
        || same_str(o, "removeparam") {
        return true;
    }
    if same_str(o, "redirect-rule")
        || same_str(o, "_____")
        || same_str(o, "-----")
        || same_str(o, "network")
        || same_str(o, "content")
        || same_str(o, "extension")
        || same_str(o, "jsinject")
        || same_str(o, "stealth")
        || same_str(o, "cookie")
        || same_str(o, "rewrite=abp-resource:1x1-transparent-gif") {
        return true;
    }
    if same_str(o, "rewrite=abp-resource:2x2-transparent-png")
        || same_str(o, "rewrite=abp-resource:32x32-transparent-png")
        || same_str(o, "rewrite=abp-resource:3x2-transparent-png")
        || same_str(o, "rewrite=abp-resource:blank-css")
        || same_str(o, "rewrite=abp-resource:blank-html")
        || same_str(o, "rewrite=abp-resource:blank-js")
        || same_str(o, "rewrite=abp-resource:blank-mp3")
        || same_str(o, "rewrite=abp-resource:blank-mp4")
        || same_str(o, "rewrite=abp-resource:blank-text") {
        return true;
    }
    false
}

fn is_valued_option(o: &Vec<char>) -> (b: bool)
    ensures
        b == valued_option(o@),
{
    if starts_with_str(o, "csp=")
        || starts_with_str(o, "redirect=")
        || starts_with_str(o, "redirect-rule=")
        || starts_with_str(o, "rewrite=")
        || starts_with_str(o, "replace=")
        || starts_with_str(o, "header=")
        || starts_with_str(o, "permissions=")
        || starts_with_str(o, "to=")
        || starts_with_str(o, "from=")
        || starts_with_str(o, "ipaddress=") {
        return true;
    }
    if starts_with_str(o, "method=")
        || starts_with_str(o, "denyallow=")
        || starts_with_str(o, "removeparam=")
        || starts_with_str(o, "urltransform=")
        || starts_with_str(o, "responseheader=")
        || starts_with_str(o, "sitekey=")
        || starts_with_str(o, "app=")
        || starts_with_str(o, "urlskip=")
        || starts_with_str(o, "uritransform=")
        || starts_with_str(o, "reason=") {
        return true;
    }
    if starts_with_str(o, "addheader=")
        || starts_with_str(o, "referrerpolicy=")
        || starts_with_str(o, "cookie=")
        || starts_with_str(o, "removeheader=")
        || starts_with_str(o, "jsonprune=")
        || starts_with_str(o, "stealth=") {
        return true;
    }
    false
}

/// Whether `o`, an option without the `~` in front, is one that this
/// library knows.
pub fn is_known_option(o: &Vec<char>) -> (b: bool)
    ensures
        b == known_option(o@),
{
    is_named_option(o) || is_valued_option(o)
}

/// The name that Adblock Plus has for an option of uBlock Origin: `from=`
/// becomes `domain=`, a short name its long form; any other option stays.
pub open spec fn converted_option(o: Seq<char>) -> Seq<char> {
    if is_prefix(o, "from="@) {
        "domain="@ + o.skip("from="@.len() as int)
    } else if o == "xhr"@ {
        "xmlhttprequest"@
    } else if o == "~xhr"@ {
        "~xmlhttprequest"@
    } else if o == "css"@ {
        "stylesheet"@
    } else if o == "~css"@ {
        "~stylesheet"@
    } else if o == "1p"@ {
        "~third-party"@
    } else if o == "~1p"@ {
        "third-party"@
    } else if o == "3p"@ {
        "third-party"@
    } else if o == "~3p"@ {
        "~third-party"@
    } else if o == "frame"@ {
        "subdocument"@
    } else if o == "~frame"@ {
        "~subdocument"@
    } else if o == "doc"@ {
        "document"@
    } else if o == "ghide"@ {
        "generichide"@
    } else if o == "xml"@ {
        "xmlhttprequest"@
    } else if o == "~xml"@ {
        "~xmlhttprequest"@
    } else if o == "iframe"@ {
        "subdocument"@
    } else if o == "~iframe"@ {
        "~subdocument"@
    } else {
        o
    }
}

/// The options of `options`, each converted.
pub open spec fn converted_options(options: Seq<Seq<char>>) -> Seq<Seq<char>> {
    options.map_values(|o: Seq<char>| converted_option(o))
}

/// Converts one option of uBlock Origin to Adblock Plus's name for it.
pub fn convert_option(o: &Vec<char>) -> (r: Vec<char>)
    ensures
        r@ == converted_option(o@),
{
    let from = chars_of("from=");
    if crate::text::starts_with(o, &from) {
        let mut r = chars_of("domain=");
        let rest = slice(o, from.len(), o.len());
        append(&mut r, &rest);
        return r;
    }
    if same_str(o, "xhr") {
        return chars_of("xmlhttprequest");
    }
    if same_str(o, "~xhr") {
        return chars_of("~xmlhttprequest");
    }
    if same_str(o, "css") {
        return chars_of("stylesheet");
    }
    if same_str(o, "~css") {
        return chars_of("~stylesheet");
    }
    if same_str(o, "1p") {
        return chars_of("~third-party");
    }
    if same_str(o, "~1p") {
        return chars_of("third-party");
    }
    if same_str(o, "3p") {
        return chars_of("third-party");
    }
    if same_str(o, "~3p") {
        return chars_of("~third-party");
    }
    if same_str(o, "frame") {
        return chars_of("subdocument");
    }
    if same_str(o, "~frame") {
        return chars_of("~subdocument");
    }
    if same_str(o, "doc") {
        return chars_of("document");
    }
    if same_str(o, "ghide") {
        return chars_of("generichide");
    }
    if same_str(o, "xml") {
        return chars_of("xmlhttprequest");
    }
    if same_str(o, "~xml") {
        return chars_of("~xmlhttprequest");
    }
    if same_str(o, "iframe") {
        return chars_of("subdocument");
    }
    if same_str(o, "~iframe") {
        return chars_of("~subdocument");
    }
    copy(o)
}

/// Converts the options of uBlock Origin in `options` to Adblock Plus's
/// names for them.
pub fn convert_ubo_options(options: Vec<String>) -> (r: Vec<String>)
    ensures
        strings(r@) == converted_options(strings(options@)),
{
    let mut r: Vec<String> = Vec::new();
    let mut i: usize = 0;
    while i < options.len()
        invariant
            i <= options.len(),
            strings(r@) == converted_options(strings(options@).take(i as int)),
        decreases options.len() - i,
    {
        let ghost before = r@;
        let o = chars_of(options[i].as_str());
        r.push(string_of(&convert_option(&o)));
        proof {
            let all = strings(options@);
            assert(strings(r@) =~= strings(before).push(converted_option(all[i as int])));
        }
        i += 1;
    }
    r
}

/// A wildcard at the front that says nothing: a `*` that is followed by
/// something other than `|` or `!`.
pub open spec fn front_star(s: Seq<char>) -> bool {
    s.len() > 1 && s[0] == '*' && s[1] != '|' && s[1] != '!'
}

/// A wildcard at the back that says nothing: a `*` that follows something
/// other than `|` or a blank.
pub open spec fn back_star(s: Seq<char>) -> bool {
    s.len() > 1 && s.last() == '*' && s[s.len() - 2] != '|' && s[s.len() - 2] != ' '
}

/// `s` without the wildcards at its front that say nothing.
pub open spec fn without_front_stars(s: Seq<char>) -> Seq<char>
    decreases s.len(),
{
    if front_star(s) {
        without_front_stars(s.drop_first())
    } else {
        s
    }
}

/// `s` without the wildcards at its back that say nothing.
pub open spec fn without_back_stars(s: Seq<char>) -> Seq<char>
    decreases s.len(),
{
    if back_star(s) {
        without_back_stars(s.drop_last())
    } else {
        s
    }
}

/// The text of a rule, without `@@`, after its needless wildcards are
/// removed: those at the front and the back go; a text between two `/`
/// that lost one gets a `*` at its end, so that it is not read as a regular
/// expression; a lone `*` becomes the empty text.
pub open spec fn unstarred(body: Seq<char>) -> Seq<char> {
    let t = without_back_stars(without_front_stars(body));
    let u = if t.len() != body.len() && t.len() > 0 && t[0] == '/' && t.last() == '/' {
        t.push('*')
    } else {
        t
    };
    if u == seq!['*'] {
        Seq::<char>::empty()
    } else {
        u
    }
}

/// A rule's text after its needless wildcards are removed; `@@` at the
/// front stays in front.
pub open spec fn without_wildcards(text: Seq<char>) -> Seq<char> {
    if is_prefix(text, "@@"@) {
        "@@"@ + unstarred(text.skip("@@"@.len() as int))
    } else {
        unstarred(text)
    }
}

fn unstar(body: &Vec<char>) -> (r: Vec<char>)
    ensures
        r@ == unstarred(body@),
{
    let n = body.len();
    let mut lo: usize = 0;
    assert(body@.skip(0) =~= body@);
    while n - lo > 1 && body[lo] == '*' && body[lo + 1] != '|' && body[lo + 1] != '!'
        invariant
            lo <= n,
            n == body.len(),
            without_front_stars(body@) == without_front_stars(body@.skip(lo as int)),
        decreases n - lo,
    {
        proof {
            let s = body@.skip(lo as int);
            assert(s.drop_first() =~= body@.skip(lo + 1));
        }
        lo += 1;
    }
    proof {
        let s = body@.skip(lo as int);
    }
    let front = slice(body, lo, n);
    let mut hi: usize = front.len();
    assert(front@.take(hi as int) =~= front@);
    while hi > 1 && front[hi - 1] == '*' && front[hi - 2] != '|' && front[hi - 2] != ' '
        invariant
            hi <= front.len(),
            without_back_stars(front@) == without_back_stars(front@.take(hi as int)),
        decreases hi,
    {
        proof {
            let s = front@.take(hi as int);
            assert(s.drop_last() =~= front@.take(hi - 1));
        }
        hi -= 1;
    }
    let mut r = slice(&front, 0, hi);
    if r.len() != n && r.len() > 0 && r[0] == '/' && r[r.len() - 1] == '/' {
        r.push('*');
    }
    if r.len() == 1 && r[0] == '*' {
        assert(r@ =~= seq!['*']);
        return Vec::new();
    }
    r
}

/// Removes the wildcards of a rule's text that say nothing.
pub fn remove_unnecessary_wildcards(filter_text: &str) -> (r: String)
    ensures
        r@ == without_wildcards(filter_text@),
{
    let text = chars_of(filter_text);
    let mark = chars_of("@@");
    if crate::text::starts_with(&text, &mark) {
        let body = slice(&text, mark.len(), text.len());
        let mut r = mark;
        let rest = unstar(&body);
        append(&mut r, &rest);
        string_of(&r)
    } else {
        string_of(&unstar(&text))
    }
}

/// A network rule split into its text and its options: the options follow
/// the last `$` that a list of options can follow.
pub const OPTION_PATTERN: &'static str =
    r"^(.*)\$(~?[\w\-]+(?:=[^,\s]+)?(?:,~?[\w\-]+(?:=[^,\s]+)?)*)$";

/// The canonical form of an option's name: lower case, `-` for `_`.
pub open spec fn name_form(name: Seq<char>) -> Seq<char> {
    lowercase(name).map_values(
        |c: char|
            if c == '_' {
                '-'
            } else {
                c
            },
    )
}

/// An option with its name in canonical form. The value, from the first `=`
/// on, stays as it is.
pub open spec fn normal_option(o: Seq<char>) -> Seq<char> {
    match index_of(o, seq!['=']) {
        Some(i) => name_form(o.subrange(0, i)) + o.subrange(i, o.len() as int),
        None => name_form(o),
    }
}

/// The options that a rule's option text holds, each with its name in
/// canonical form and, where `convert` is set, converted to Adblock Plus's
/// name for it.
pub open spec fn read_options(text: Seq<char>, convert: bool) -> Seq<Seq<char>> {
    split_on(text, ',').map_values(
        |o: Seq<char>|
            if convert {
                converted_option(normal_option(o))
            } else {
                normal_option(o)
            },
    )
}

/// An option that limits a rule to domains.
pub open spec fn is_domain_option(o: Seq<char>) -> bool {
    is_prefix(o, "domain="@)
}

/// The options of `options` other than the domain options, in order.
pub open spec fn plain_options(options: Seq<Seq<char>>) -> Seq<Seq<char>>
    decreases options.len(),
{
    if options.len() == 0 {
        options
    } else {
        let head = plain_options(options.drop_last());
        if is_domain_option(options.last()) {
            head
        } else {
            head.push(options.last())
        }
    }
}

/// The domains that the domain options of `options` name, in order; the
/// domains of one option stand between `|`.
pub open spec fn domain_tokens(options: Seq<Seq<char>>) -> Seq<Seq<char>>
    decreases options.len(),
{
    if options.len() == 0 {
        options
    } else {
        let head = domain_tokens(options.drop_last());
        if is_domain_option(options.last()) {
            head + split_on(options.last().skip("domain="@.len() as int), '|')
        } else {
            head
        }
    }
}

/// The texts of `tokens` that are not empty, in order.
pub open spec fn nonempty(tokens: Seq<Seq<char>>) -> Seq<Seq<char>>
    decreases tokens.len(),
{
    if tokens.len() == 0 {
        tokens
    } else {
        let head = nonempty(tokens.drop_last());
        if tokens.last().len() == 0 {
            head
        } else {
            head.push(tokens.last())
        }
    }
}

/// The plain options of a rule as they are written out: each once, sorted.
pub open spec fn arranged_plain(options: Seq<Seq<char>>) -> Seq<Seq<char>> {
    sorted_tokens(first_occurrences(plain_options(options)))
}

/// The one domain option that stands for all domains of a rule: each
/// domain once, sorted, with `|` between them.
pub open spec fn merged_domain_option(tokens: Seq<Seq<char>>) -> Seq<char> {
    "domain="@ + joined(sorted_tokens(first_occurrences(nonempty(tokens))), "|"@)
}

/// The options of a rule as they are written out: the plain options, then,
/// where the rule has a domain option, the merged domain option.
pub open spec fn arranged_options(options: Seq<Seq<char>>) -> Seq<Seq<char>> {
    if domain_tokens(options).len() == 0 {
        arranged_plain(options)
    } else {
        arranged_plain(options).push(merged_domain_option(domain_tokens(options)))
    }
}

/// The warning about an option that is not known.
pub open spec fn unknown_option_warning(option: Seq<char>, filter: Seq<char>) -> Seq<char> {
    "Warning: The option \""@ + option + "\" used on the filter \""@ + filter
        + "\" is not recognised by FOP"@
}

/// The warnings about the options of `options` that are not known, in
/// order.
pub open spec fn option_warnings(options: Seq<Seq<char>>, filter: Seq<char>) -> Seq<Seq<char>>
    decreases options.len(),
{
    if options.len() == 0 {
        options
    } else {
        let head = option_warnings(options.drop_last(), filter);
        if known_option(without_leading(options.last(), '~')) {
            head
        } else {
            head.push(unknown_option_warning(options.last(), filter))
        }
    }
}

/// The canonical form of a network rule whose text is `core` and whose
/// option text is `option_text`.
pub open spec fn filter_of_parts(core: Seq<char>, option_text: Seq<char>, convert: bool) -> Seq<
    char,
> {
    without_wildcards(core) + "$"@ + joined(
        arranged_options(read_options(option_text, convert)),
        ","@,
    )
}

/// A rule that has an option with a regular expression for a value is left
/// as it is.
pub open spec fn has_regex_option(filter: Seq<char>) -> bool {
    occurs(filter, "=/"@) && occurs(filter, "$"@)
}

/// The canonical form of a network rule.
pub open spec fn tidied_filter(filter: Seq<char>, convert: bool) -> Seq<char> {
    if has_regex_option(filter) {
        filter
    } else {
        match regex_captures(OPTION_PATTERN@, filter) {
            Some(groups) => filter_of_parts(group_text(groups, 1), group_text(groups, 2), convert),
            None => without_wildcards(filter),
        }
    }
}

/// The warnings that tidying a network rule gives: one for each of its
/// plain options that is not known.
pub open spec fn filter_warnings(filter: Seq<char>, convert: bool) -> Seq<Seq<char>> {
    if has_regex_option(filter) {
        Seq::<Seq<char>>::empty()
    } else {
        match regex_captures(OPTION_PATTERN@, filter) {
            Some(groups) => option_warnings(
                arranged_plain(read_options(group_text(groups, 2), convert)),
                filter,
            ),
            None => Seq::<Seq<char>>::empty(),
        }
    }
}

fn name_of(name: &Vec<char>) -> (r: Vec<char>)
    ensures
        r@ == name_form(name@),
{
    let lower = to_lowercase(name);
    let mut r: Vec<char> = Vec::new();
    let mut i: usize = 0;
    while i < lower.len()
        invariant
            i <= lower.len(),
            r@.len() == i,
            forall|k: int| 0 <= k < i ==> r@[k] == (if lower@[k] == '_' {
                '-'
            } else {
                lower@[k]
            }),
        decreases lower.len() - i,
    {
        let c = lower[i];
        r.push(if c == '_' {
            '-'
        } else {
            c
        });
        i += 1;
    }
    r
}

/// Puts the name of an option in canonical form.
pub fn normalize_option(o: &Vec<char>) -> (r: Vec<char>)
    ensures
        r@ == normal_option(o@),
{
    let eq: Vec<char> = vec!['='];
    assert(eq@ =~= seq!['=']);
    proof {
        lemma_index_from(o@, eq@, 0);
    }
    match find(o, &eq) {
        Some(i) => {
            let mut r = name_of(&slice(o, 0, i));
            let value = slice(o, i, o.len());
            append(&mut r, &value);
            r
        },
        None => name_of(o),
    }
}

fn read_option_list(text: &Vec<char>, convert: bool) -> (r: Vec<Vec<char>>)
    ensures
        texts(r@) == read_options(text@, convert),
{
    let parts = split(text, ',');
    let mut r: Vec<Vec<char>> = Vec::new();
    let mut i: usize = 0;
    while i < parts.len()
        invariant
            i <= parts.len(),
            r@.len() == i,
            forall|k: int|
                0 <= k < i ==> (#[trigger] r@[k])@ == (if convert {
                    converted_option(normal_option(parts@[k]@))
                } else {
                    normal_option(parts@[k]@)
                }),
        decreases parts.len() - i,
    {
        let o = normalize_option(&parts[i]);
        if convert {
            r.push(convert_option(&o));
        } else {
            r.push(o);
        }
        i += 1;
    }
    r
}

fn plain_of(options: &Vec<Vec<char>>) -> (r: Vec<Vec<char>>)
    ensures
        texts(r@) == plain_options(texts(options@)),
{
    let mut r: Vec<Vec<char>> = Vec::new();
    let mut i: usize = 0;
    let ghost all = texts(options@);
    while i < options.len()
        invariant
            i <= options.len(),
            all == texts(options@),
            texts(r@) == plain_options(all.take(i as int)),
        decreases options.len() - i,
    {
        proof {
            assert(all.take(i + 1).drop_last() =~= all.take(i as int));
        }
        if !starts_with_str(&options[i], "domain=") {
            r.push(copy(&options[i]));
        }
        i += 1;
    }
    assert(all.take(all.len() as int) =~= all);
    r
}

fn domain_tokens_of(options: &Vec<Vec<char>>) -> (r: Vec<Vec<char>>)
    ensures
        texts(r@) == domain_tokens(texts(options@)),
{
    let mut r: Vec<Vec<char>> = Vec::new();
    let mut i: usize = 0;
    let ghost all = texts(options@);
    let mark = chars_of("domain=");
    while i < options.len()
        invariant
            i <= options.len(),
            all == texts(options@),
            mark@ == "domain="@,
            texts(r@) == domain_tokens(all.take(i as int)),
        decreases options.len() - i,
    {
        proof {
            assert(all.take(i + 1).drop_last() =~= all.take(i as int));
        }
        let o = &options[i];
        if crate::text::starts_with(o, &mark) {
            let rest = slice(o, mark.len(), o.len());
            let mut parts = split(&rest, '|');
            r.append(&mut parts);
        }
        i += 1;
    }
    assert(all.take(all.len() as int) =~= all);
    r
}

fn nonempty_of(tokens: &Vec<Vec<char>>) -> (r: Vec<Vec<char>>)
    ensures
        texts(r@) == nonempty(texts(tokens@)),
{
    let mut r: Vec<Vec<char>> = Vec::new();
    let mut i: usize = 0;
    let ghost all = texts(tokens@);
    while i < tokens.len()
        invariant
            i <= tokens.len(),
            all == texts(tokens@),
            texts(r@) == nonempty(all.take(i as int)),
        decreases tokens.len() - i,
    {
        proof {
            assert(all.take(i + 1).drop_last() =~= all.take(i as int));
        }
        if tokens[i].len() > 0 {
            r.push(copy(&tokens[i]));
        }
        i += 1;
    }
    assert(all.take(all.len() as int) =~= all);
    r
}

fn warn_unknown(options: &Vec<Vec<char>>, filter: &Vec<char>, warnings: &mut Vec<String>)
    ensures
        strings(final(warnings)@) == strings(old(warnings)@) + option_warnings(
            texts(options@),
            filter@,
        ),
{
    let mut i: usize = 0;
    let ghost all = texts(options@);
    let ghost start = strings(warnings@);
    while i < options.len()
        invariant
            i <= options.len(),
            all == texts(options@),
            strings(warnings@) == start + option_warnings(all.take(i as int), filter@),
        decreases options.len() - i,
    {
        let ghost before = warnings@;
        proof {
            assert(all.take(i + 1).drop_last() =~= all.take(i as int));
        }
        let o = &options[i];
        if !is_known_option(&strip_leading(o, '~')) {
            let mut m = chars_of("Warning: The option \"");
            append(&mut m, o);
            append(&mut m, &chars_of("\" used on the filter \""));
            append(&mut m, filter);
            append(&mut m, &chars_of("\" is not recognised by FOP"));
            warnings.push(string_of(&m));
            assert(strings(warnings@) =~= strings(before).push(
                unknown_option_warning(o@, filter@),
            ));
        }
        i += 1;
    }
    assert(all.take(all.len() as int) =~= all);
}

/// The canonical form of the network rule `filter`, whose text is `core`
/// and whose option text is `option_text`; warns of each plain option that
/// is not known.
pub fn filter_from_parts(
    core: &Vec<char>,
    option_text: &Vec<char>,
    filter: &Vec<char>,
    convert: bool,
    warnings: &mut Vec<String>,
) -> (r: Vec<char>)
    ensures
        r@ == filter_of_parts(core@, option_text@, convert),
        strings(final(warnings)@) == strings(old(warnings)@) + option_warnings(
            arranged_plain(read_options(option_text@, convert)),
            filter@,
        ),
{
    let options = read_option_list(option_text, convert);
    let mut arranged = sort_tokens(&unique(&plain_of(&options)));
    warn_unknown(&arranged, filter, warnings);
    let tokens = domain_tokens_of(&options);
    if tokens.len() > 0 {
        let domains = sort_tokens(&unique(&nonempty_of(&tokens)));
        let mut merged = chars_of("domain=");
        append(&mut merged, &join(&domains, &chars_of("|")));
        let ghost before = arranged@;
        arranged.push(merged);
        assert(texts(arranged@) =~= texts(before).push(merged@));
    }
    let mut r = chars_of(remove_unnecessary_wildcards(string_of(core).as_str()).as_str());
    append(&mut r, &chars_of("$"));
    append(&mut r, &join(&arranged, &chars_of(",")));
    r
}

/// Puts a network rule in canonical form: needless wildcards go, the names
/// of its options are put in lower case with `-` for `_`, its plain options
/// are sorted, each once, and its domain options are merged into one, the
/// last. Warns of each plain option that is not known.
pub fn filter_tidy(filter_in: &str, convert_ubo: bool, warnings: &mut Vec<String>) -> (r: String)
    ensures
        r@ == tidied_filter(filter_in@, convert_ubo),
        strings(final(warnings)@) == strings(old(warnings)@) + filter_warnings(
            filter_in@,
            convert_ubo,
        ),
{
    let filter = chars_of(filter_in);
    if contains_str(&filter, "=/") && contains_str(&filter, "$") {
        return filter_in.to_owned();
    }
    match captures(OPTION_PATTERN, filter_in) {
        Some(groups) => {
            let core = group(&groups, 1);
            let option_text = group(&groups, 2);
            string_of(&filter_from_parts(&core, &option_text, &filter, convert_ubo, warnings))
        },
        None => remove_unnecessary_wildcards(filter_in),
    }
}

} // verus!
