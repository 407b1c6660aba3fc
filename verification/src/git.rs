//! Rules about a repository that need no access to it: what a repository
//! tool is called like, and which addresses a commit comment may name.

use crate::pattern::{captures, group, group_text, regex_captures};
use crate::text::{
    append, chars_of, copy, decimal, find, index_of, is_prefix, is_suffix, lemma_index_from,
    lines, rows, same_str, slice, starts_with, starts_with_str, string_of, strings, texts,
    to_decimal, trim, trimmed,
};
use vstd::prelude::*;

verus! {

/// How one kind of repository tool is called.
#[derive(Clone)]
pub struct RepoDefinition {
    pub name: &'static str,
    pub directory: &'static str,
    pub location_option: &'static str,
    pub repo_directory_option: Option<&'static str>,
    pub check_changes: &'static [&'static str],
    pub difference: &'static [&'static str],
    pub commit: &'static [&'static str],
    pub pull: &'static [&'static str],
    pub push: &'static [&'static str],
}

/// An ASCII letter or digit.
pub open spec fn is_alnum(c: char) -> bool {
    ('0' <= c && c <= '9') || ('a' <= c && c <= 'z') || ('A' <= c && c <= 'Z')
}

/// An address is accepted when it begins with `about:`, or when it has a
/// scheme of letters and digits, then `://`, then a host that is not empty.
pub open spec fn url_ok(url: Seq<char>) -> bool {
    is_prefix(url, "about:"@) || match index_of(url, "://"@) {
        Some(i) => {
            &&& i > 0
            &&& forall|k: int| 0 <= k < i ==> is_alnum(#[trigger] url[k])
            &&& i + 3 < url.len()
            &&& url[i + 3] != '/'
        },
        None => false,
    }
}

fn is_alnum_char(c: char) -> (b: bool)
    ensures
        b == is_alnum(c),
{
    ('0' <= c && c <= '9') || ('a' <= c && c <= 'z') || ('A' <= c && c <= 'Z')
}

/// Whether `url_str` has the shape of an address.
pub fn valid_url(url_str: &str) -> (b: bool)
    ensures
        b == url_ok(url_str@),
{
    let url = chars_of(url_str);
    if starts_with_str(&url, "about:") {
        return true;
    }
    let mark = chars_of("://");
    proof {
        reveal_strlit("://");
        lemma_index_from(url@, mark@, 0);
    }
    match find(&url, &mark) {
        Some(i) => {
            if i == 0 {
                return false;
            }
            let mut k: usize = 0;
            while k < i
                invariant
                    k <= i <= url.len(),
                    url@ == url_str@,
                    !is_prefix(url@, "about:"@),
                    index_of(url@, "://"@) == Some(i as int),
                    forall|j: int| 0 <= j < k ==> is_alnum(#[trigger] url@[j]),
                decreases i - k,
            {
                if !is_alnum_char(url[k]) {
                    return false;
                }
                k += 1;
            }
            if url.len() - i <= 3 {
                return false;
            }
            url[i + 3] != '/'
        },
        None => false,
    }
}

/// The words of a list of literals.
pub open spec fn words(list: Seq<&'static str>) -> Seq<Seq<char>> {
    list.map_values(|w: &'static str| w@)
}

/// How git is called.
pub fn git() -> (repo: RepoDefinition)
    ensures
        repo.name@ == "git"@,
        repo.directory@ == ".git"@,
        repo.location_option@ == "--work-tree="@,
        repo.repo_directory_option is Some,
        repo.repo_directory_option->0@ == "--git-dir="@,
        words(repo.check_changes@) == seq!["status"@, "-s"@, "--untracked-files=no"@],
        words(repo.difference@) == seq!["diff"@],
        words(repo.commit@) == seq!["commit"@, "-a"@, "-m"@],
        words(repo.pull@) == seq!["pull"@],
        words(repo.push@) == seq!["push"@],
{
    let repo = RepoDefinition {
        name: "git",
        directory: ".git",
        location_option: "--work-tree=",
        repo_directory_option: Some("--git-dir="),
        check_changes: &["status", "-s", "--untracked-files=no"],
        difference: &["diff"],
        commit: &["commit", "-a", "-m"],
        pull: &["pull"],
        push: &["push"],
    };
    repo
}

/// An option and its value as they are handed to a command: as one word
/// where the option ends with `=`, else as two.
pub open spec fn option_words(option: Seq<char>, value: Seq<char>) -> Seq<Seq<char>> {
    if option.len() > 0 && option.last() == '=' {
        seq![option + value]
    } else {
        seq![option, value]
    }
}

/// The words that every call of the repository tool begins with: its name,
/// the option that names the working tree at `location`, and, where the
/// tool has one, the option that names the repository's own directory
/// `repo_directory`.
pub open spec fn base_command(repo: RepoDefinition, location: Seq<char>, repo_directory: Seq<char>)
    -> Seq<Seq<char>> {
    seq![repo.name@] + option_words(repo.location_option@, location) + (
    match repo.repo_directory_option {
        Some(option) => option_words(option@, repo_directory),
        None => Seq::<Seq<char>>::empty(),
    })
}

fn push_option(cmd: &mut Vec<String>, option: &str, value: &str)
    ensures
        strings(final(cmd)@) == strings(old(cmd)@) + option_words(option@, value@),
{
    let o = chars_of(option);
    if crate::text::ends_with_char(&o, '=') {
        let mut word = o;
        append(&mut word, &chars_of(value));
        cmd.push(string_of(&word));
    } else {
        cmd.push(option.to_owned());
        cmd.push(value.to_owned());
    }
}

/// The words that every call of the repository tool begins with, for the
/// working tree at `location` whose repository lies in `repo_directory`.
pub fn build_base_command(repo: &RepoDefinition, location: &str, repo_directory: &str) -> (cmd:
    Vec<String>)
    ensures
        strings(cmd@) == base_command(*repo, location@, repo_directory@),
{
    let mut cmd: Vec<String> = Vec::new();
    cmd.push(repo.name.to_owned());
    push_option(&mut cmd, repo.location_option, location);
    match repo.repo_directory_option {
        Some(option) => {
            push_option(&mut cmd, option, repo_directory);
        },
        None => {},
    }
    cmd
}

/// A commit comment: `A:`, `M:` or `P:`, a blank, then, if any, a remark in
/// parentheses and a blank, then the rest.
pub const COMMIT_PATTERN: &'static str = r"^(A|M|P):\s((\(.+\))\s)?(.*)$";

/// What a look at a commit comment finds.
pub enum CommentCheck {
    /// The comment is in order.
    Accepted,
    /// The comment is not in the recognised form.
    Unrecognised,
    /// The comment says that a rule was added or removed, but the
    /// repository had noted no change.
    NoChanges,
    /// The comment names something that is no address.
    BadAddress(String),
}

/// What a look at a commit comment finds, as a value of the model.
pub enum Finding {
    Accepted,
    Unrecognised,
    NoChanges,
    BadAddress(Seq<char>),
}

impl View for CommentCheck {
    type V = Finding;

    open spec fn view(&self) -> Finding {
        match self {
            CommentCheck::Accepted => Finding::Accepted,
            CommentCheck::Unrecognised => Finding::Unrecognised,
            CommentCheck::NoChanges => Finding::NoChanges,
            CommentCheck::BadAddress(a) => Finding::BadAddress(a@),
        }
    }
}

/// What a look at a commit comment finds, given the groups that the
/// pattern for comments captured in it. `M:` is always in order; `A:` and
/// `P:` need a change noted by the repository and an address.
pub open spec fn finding(groups: Option<Seq<Option<Seq<char>>>>, user_changes: bool) -> Finding {
    match groups {
        None => Finding::Unrecognised,
        Some(g) => if group_text(g, 1) == "M"@ {
            Finding::Accepted
        } else if group_text(g, 1) == "A"@ || group_text(g, 1) == "P"@ {
            if !user_changes {
                Finding::NoChanges
            } else if !url_ok(group_text(g, 4)) {
                Finding::BadAddress(group_text(g, 4))
            } else {
                Finding::Accepted
            }
        } else {
            Finding::Unrecognised
        },
    }
}

/// Looks at a commit comment, given the groups that the pattern for
/// comments captured in it.
pub fn review_groups(groups: &Option<Vec<Option<String>>>, user_changes: bool) -> (c:
    CommentCheck)
    ensures
        c@ == finding(groups.deep_view(), user_changes),
{
    match groups {
        None => CommentCheck::Unrecognised,
        Some(g) => {
            let indicator = group(g, 1);
            if same_str(&indicator, "M") {
                CommentCheck::Accepted
            } else if same_str(&indicator, "A") || same_str(&indicator, "P") {
                if !user_changes {
                    CommentCheck::NoChanges
                } else {
                    let address = string_of(&group(g, 4));
                    if valid_url(address.as_str()) {
                        CommentCheck::Accepted
                    } else {
                        CommentCheck::BadAddress(address)
                    }
                }
            } else {
                CommentCheck::Unrecognised
            }
        },
    }
}

/// Looks at a commit comment; `user_changes` tells whether the repository
/// had noted a change before the run.
pub fn review_comment(comment: &str, user_changes: bool) -> (c: CommentCheck)
    ensures
        c@ == finding(regex_captures(COMMIT_PATTERN@, comment@), user_changes),
{
    let groups = captures(COMMIT_PATTERN, comment);
    review_groups(&groups, user_changes)
}

/// Whether a commit comment is in order.
pub fn check_comment(comment: &str, user_changes: bool) -> (b: bool)
    ensures
        b == (finding(regex_captures(COMMIT_PATTERN@, comment@), user_changes)
            is Accepted),
{
    match review_comment(comment, user_changes) {
        CommentCheck::Accepted => true,
        _ => false,
    }
}

/// A line of a diff that adds or removes a line: it begins with `+` or `-`,
/// but not with `+++` or `---`.
pub open spec fn changed_line(line: Seq<char>) -> bool {
    (is_prefix(line, "+"@) || is_prefix(line, "-"@)) && !is_prefix(line, "+++"@) && !is_prefix(
        line,
        "---"@,
    )
}

/// What a line of a diff does.
#[derive(Clone, Copy, PartialEq, Eq, Structural)]
pub enum DiffLine {
    /// The line adds a line: it begins with `+`, but not with `+++`.
    Added,
    /// The line removes a line: it begins with `-`, but not with `---`.
    Removed,
    /// Any other line.
    Other,
}

/// What the line `line` of a diff does.
pub open spec fn diff_line(line: Seq<char>) -> DiffLine {
    if is_prefix(line, "+"@) && !is_prefix(line, "+++"@) {
        DiffLine::Added
    } else if is_prefix(line, "-"@) && !is_prefix(line, "---"@) {
        DiffLine::Removed
    } else {
        DiffLine::Other
    }
}

/// Tells what a line of a diff does.
pub fn diff_line_kind(line: &str) -> (k: DiffLine)
    ensures
        k == diff_line(line@),
{
    let l = chars_of(line);
    if starts_with_str(&l, "+") && !starts_with_str(&l, "+++") {
        DiffLine::Added
    } else if starts_with_str(&l, "-") && !starts_with_str(&l, "---") {
        DiffLine::Removed
    } else {
        DiffLine::Other
    }
}

/// The number of lines of `list` that add or remove a line.
pub open spec fn changed_count(list: Seq<Seq<char>>) -> nat
    decreases list.len(),
{
    if list.len() == 0 {
        0
    } else {
        changed_count(list.drop_last()) + (if changed_line(list.last()) {
            1nat
        } else {
            0nat
        })
    }
}

/// The number of changed lines above which a change is large.
pub const LARGE_LINES_THRESHOLD: usize = 25;

/// Whether a line of a diff adds or removes a line.
pub fn is_changed_line(line: &Vec<char>) -> (b: bool)
    ensures
        b == changed_line(line@),
{
    (starts_with_str(line, "+") || starts_with_str(line, "-")) && !starts_with_str(line, "+++")
        && !starts_with_str(line, "---")
}

/// Whether a diff changes more than `LARGE_LINES_THRESHOLD` lines.
pub fn is_large_change(diff: &str) -> (b: bool)
    ensures
        b == (changed_count(rows(diff@)) > LARGE_LINES_THRESHOLD),
{
    let list = lines(&chars_of(diff));
    let ghost all = texts(list@);
    let mut count: usize = 0;
    let mut i: usize = 0;
    while i < list.len()
        invariant
            i <= list.len(),
            all == texts(list@),
            count <= i,
            count == changed_count(all.take(i as int)),
        decreases list.len() - i,
    {
        proof {
            assert(all.take(i + 1).drop_last() =~= all.take(i as int));
        }
        if is_changed_line(&list[i]) {
            count += 1;
        }
        i += 1;
    }
    assert(all.take(all.len() as int) =~= all);
    count > LARGE_LINES_THRESHOLD
}

/// `s` without every `p` that it begins with.
pub open spec fn without_prefixes(s: Seq<char>, p: Seq<char>) -> Seq<char>
    decreases s.len(),
{
    if p.len() > 0 && is_prefix(s, p) {
        without_prefixes(s.skip(p.len() as int), p)
    } else {
        s
    }
}

/// `s` without every `p` that it ends with.
pub open spec fn without_suffixes(s: Seq<char>, p: Seq<char>) -> Seq<char>
    decreases s.len(),
{
    if p.len() > 0 && is_suffix(s, p) {
        without_suffixes(s.take(s.len() - p.len()), p)
    } else {
        s
    }
}

fn strip_prefixes(s: &Vec<char>, p: &Vec<char>) -> (r: Vec<char>)
    ensures
        r@ == without_prefixes(s@, p@),
{
    let mut from: usize = 0;
    assert(s@.skip(0) =~= s@);
    if p.len() == 0 {
        return copy(s);
    }
    while crate::text::matches_at(s, p, from)
        invariant
            from <= s.len(),
            p.len() > 0,
            without_prefixes(s@, p@) == without_prefixes(s@.skip(from as int), p@),
        decreases s.len() - from,
    {
        proof {
            let t = s@.skip(from as int);
            assert(t.subrange(0, p@.len() as int) =~= s@.subrange(
                from as int,
                from + p@.len(),
            ));
            assert(t.skip(p@.len() as int) =~= s@.skip(from + p@.len()));
        }
        from += p.len();
    }
    proof {
        let t = s@.skip(from as int);
        if p@.len() <= t.len() {
            assert(t.subrange(0, p@.len() as int) =~= s@.subrange(
                from as int,
                from + p@.len(),
            ));
        }
    }
    let r = slice(s, from, s.len());
    r
}

fn strip_suffixes(s: &Vec<char>, p: &Vec<char>) -> (r: Vec<char>)
    ensures
        r@ == without_suffixes(s@, p@),
{
    let mut to: usize = s.len();
    assert(s@.take(to as int) =~= s@);
    if p.len() == 0 {
        return copy(s);
    }
    while to >= p.len() && crate::text::matches_at(s, p, to - p.len())
        invariant
            to <= s.len(),
            p.len() > 0,
            without_suffixes(s@, p@) == without_suffixes(s@.take(to as int), p@),
        decreases to,
    {
        proof {
            let t = s@.take(to as int);
            assert(t.subrange(t.len() - p@.len(), t.len() as int) =~= s@.subrange(
                to - p@.len(),
                to as int,
            ));
            assert(t.take(t.len() - p@.len()) =~= s@.take(to - p@.len()));
        }
        to -= p.len();
    }
    proof {
        let t = s@.take(to as int);
        if p@.len() <= t.len() {
            assert(t.subrange(t.len() - p@.len(), t.len() as int) =~= s@.subrange(
                to - p@.len(),
                to as int,
            ));
        }
    }
    let r = slice(s, 0, to);
    r
}

/// The address of a GitHub repository's pages, given the address of the
/// repository itself, in either of its two forms; `None` for any other
/// address.
pub open spec fn github_url(remote: Seq<char>) -> Option<Seq<char>> {
    if is_prefix(remote, "git@github.com:"@) {
        Some(
            "https://github.com/"@ + without_suffixes(
                without_prefixes(remote, "git@github.com:"@),
                ".git"@,
            ),
        )
    } else if is_prefix(remote, "https://github.com/"@) {
        Some(without_suffixes(remote, ".git"@))
    } else {
        None
    }
}

/// Turns the address of a GitHub repository into the address of its pages.
pub fn remote_to_github_url(remote: &str) -> (r: Option<String>)
    ensures
        match r {
            Some(u) => github_url(remote@) == Some(u@),
            None => github_url(remote@) is None,
        },
{
    let r = chars_of(remote);
    let ssh = chars_of("git@github.com:");
    let tail = chars_of(".git");
    if starts_with(&r, &ssh) {
        let mut url = chars_of("https://github.com/");
        append(&mut url, &strip_suffixes(&strip_prefixes(&r, &ssh), &tail));
        return Some(string_of(&url));
    }
    if starts_with_str(&r, "https://github.com/") {
        return Some(string_of(&strip_suffixes(&r, &tail)));
    }
    None
}

/// The name of the branch that a pull request made at the moment `secs`
/// seconds after the start of 1970 is pushed to.
pub open spec fn branch_name(secs: u64) -> Seq<char> {
    "fop-update-"@ + decimal(secs as nat)
}

/// The name of the branch for a pull request made at `secs`.
pub fn pr_branch_name(secs: u64) -> (r: String)
    ensures
        r@ == branch_name(secs),
{
    let mut r = chars_of("fop-update-");
    append(&mut r, &to_decimal(secs));
    string_of(&r)
}

/// The address of the page that compares a branch with its base.
pub open spec fn compare_url(pages: Seq<char>, base: Seq<char>, branch: Seq<char>) -> Seq<char> {
    pages + "/compare/"@ + base + "..."@ + branch + "?expand=1"@
}

/// The address of the page on which a pull request for `branch` against
/// `base` is made.
pub fn pr_url(pages: &str, base: &str, branch: &str) -> (r: String)
    ensures
        r@ == compare_url(pages@, base@, branch@),
{
    let mut r = chars_of(pages);
    append(&mut r, &chars_of("/compare/"));
    append(&mut r, &chars_of(base));
    append(&mut r, &chars_of("..."));
    append(&mut r, &chars_of(branch));
    append(&mut r, &chars_of("?expand=1"));
    string_of(&r)
}

/// A call of the repository tool: the base command, then `words`, then
/// `last` where there is one.
pub open spec fn command_words(
    base: Seq<Seq<char>>,
    words_after: Seq<Seq<char>>,
    last: Option<Seq<char>>,
) -> Seq<Seq<char>> {
    match last {
        Some(l) => base + words_after + seq![l],
        None => base + words_after,
    }
}

/// Builds a call of the repository tool.
pub fn command(base_cmd: &Vec<String>, args: &[&'static str], last: Option<&str>) -> (cmd: Vec<
    String,
>)
    ensures
        strings(cmd@) == command_words(
            strings(base_cmd@),
            words(args@),
            match last {
                Some(l) => Some(l@),
                None => None,
            },
        ),
{
    let mut cmd: Vec<String> = Vec::new();
    let mut i: usize = 0;
    while i < base_cmd.len()
        invariant
            i <= base_cmd.len(),
            strings(cmd@) == strings(base_cmd@).take(i as int),
        decreases base_cmd.len() - i,
    {
        let ghost before = cmd@;
        let word = base_cmd[i].clone();
        cmd.push(word);
        proof {
            assert(strings(cmd@) =~= strings(before).push(word@));
        }
        i += 1;
    }
    let mut j: usize = 0;
    while j < args.len()
        invariant
            j <= args.len(),
            strings(cmd@) == strings(base_cmd@) + words(args@).take(j as int),
        decreases args.len() - j,
    {
        let ghost before = cmd@;
        let word = args[j].to_owned();
        cmd.push(word);
        proof {
            assert(strings(cmd@) =~= strings(before).push(word@));
        }
        j += 1;
    }
    assert(words(args@).take(args.len() as int) =~= words(args@));
    match last {
        Some(l) => {
            cmd.push(l.to_owned());
        },
        None => {},
    }
    cmd
}

/// What is to be done about the changes that the repository has noted,
/// before the user is asked anything.
pub enum CommitPlan {
    /// The repository has noted no change.
    Nothing,
    /// A commit comment was given, and it is empty.
    EmptyMessage,
    /// A commit comment was given, and it is not in order.
    BadMessage(CommentCheck),
    /// Commit with the comment that was given.
    Commit,
    /// The change is large: ask the user to confirm it, then for a comment.
    ConfirmLarge,
    /// Ask the user for a comment.
    AskComment,
}

/// What is to be done, as a value of the model.
pub enum Plan {
    Nothing,
    EmptyMessage,
    BadMessage(Finding),
    Commit,
    ConfirmLarge,
    AskComment,
}

impl View for CommitPlan {
    type V = Plan;

    open spec fn view(&self) -> Plan {
        match self {
            CommitPlan::Nothing => Plan::Nothing,
            CommitPlan::EmptyMessage => Plan::EmptyMessage,
            CommitPlan::BadMessage(c) => Plan::BadMessage(c@),
            CommitPlan::Commit => Plan::Commit,
            CommitPlan::ConfirmLarge => Plan::ConfirmLarge,
            CommitPlan::AskComment => Plan::AskComment,
        }
    }
}

/// What is to be done about a noted difference. Nothing, where there is
/// none. A comment that was given is checked, unless checks are switched
/// off, and used. Where none was given, the user is asked for one, after
/// confirming the change where it is large, the run began without a noted
/// change, and the warning is not switched off.
pub open spec fn commit_plan(
    diff: Seq<char>,
    message: Option<Seq<char>>,
    original_difference: bool,
    no_msg_check: bool,
    no_large_warning: bool,
) -> Plan {
    if diff.len() == 0 {
        Plan::Nothing
    } else {
        match message {
            Some(m) => if trimmed(m).len() == 0 {
                Plan::EmptyMessage
            } else if !no_msg_check && !(finding(
                regex_captures(COMMIT_PATTERN@, m),
                original_difference,
            ) is Accepted) {
                Plan::BadMessage(finding(regex_captures(COMMIT_PATTERN@, m), original_difference))
            } else {
                Plan::Commit
            },
            None => if !no_large_warning && !original_difference && changed_count(rows(diff))
                > LARGE_LINES_THRESHOLD {
                Plan::ConfirmLarge
            } else {
                Plan::AskComment
            },
        }
    }
}

/// Decides what is to be done about a noted difference.
pub fn plan_commit(
    diff: &str,
    message: &Option<String>,
    original_difference: bool,
    no_msg_check: bool,
    no_large_warning: bool,
) -> (p: CommitPlan)
    ensures
        p@ == commit_plan(
            diff@,
            match message {
                Some(m) => Some(m@),
                None => None,
            },
            original_difference,
            no_msg_check,
            no_large_warning,
        ),
{
    if chars_of(diff).len() == 0 {
        return CommitPlan::Nothing;
    }
    match message {
        Some(m) => {
            if trim(&chars_of(m.as_str())).len() == 0 {
                return CommitPlan::EmptyMessage;
            }
            if !no_msg_check {
                match review_comment(m.as_str(), original_difference) {
                    CommentCheck::Accepted => {},
                    other => {
                        return CommitPlan::BadMessage(other);
                    },
                }
            }
            CommitPlan::Commit
        },
        None => {
            if !no_large_warning && !original_difference && is_large_change(diff) {
                CommitPlan::ConfirmLarge
            } else {
                CommitPlan::AskComment
            }
        },
    }
}

/// What an answer to the question for a commit comment leads to.
pub enum CommentAnswer {
    /// The answer is empty: the commit is given up.
    Abort,
    /// The answer, without white space around it, is the comment.
    Accepted(String),
    /// The answer is no comment in order: the question is asked again.
    Refused(CommentCheck),
}

/// What an answer leads to, as a value of the model.
pub enum Answer {
    Abort,
    Accepted(Seq<char>),
    Refused(Finding),
}

impl View for CommentAnswer {
    type V = Answer;

    open spec fn view(&self) -> Answer {
        match self {
            CommentAnswer::Abort => Answer::Abort,
            CommentAnswer::Accepted(c) => Answer::Accepted(c@),
            CommentAnswer::Refused(c) => Answer::Refused(c@),
        }
    }
}

/// What the answer `input` to the question for a commit comment leads to.
pub open spec fn comment_answer(input: Seq<char>, original_difference: bool, no_msg_check: bool)
    -> Answer {
    let comment = trimmed(input);
    if comment.len() == 0 {
        Answer::Abort
    } else if no_msg_check || finding(regex_captures(COMMIT_PATTERN@, comment), original_difference)
        is Accepted {
        Answer::Accepted(comment)
    } else {
        Answer::Refused(finding(regex_captures(COMMIT_PATTERN@, comment), original_difference))
    }
}

/// Decides what an answer to the question for a commit comment leads to.
pub fn answer_comment(input: &str, original_difference: bool, no_msg_check: bool) -> (a:
    CommentAnswer)
    ensures
        a@ == comment_answer(input@, original_difference, no_msg_check),
{
    let comment = string_of(&trim(&chars_of(input)));
    if chars_of(comment.as_str()).len() == 0 {
        return CommentAnswer::Abort;
    }
    if no_msg_check {
        return CommentAnswer::Accepted(comment);
    }
    match review_comment(comment.as_str(), original_difference) {
        CommentCheck::Accepted => CommentAnswer::Accepted(comment),
        other => CommentAnswer::Refused(other),
    }
}

/// Whether an answer confirms a large change: it is `YES`, with or without
/// white space around it.
pub fn confirms(input: &str) -> (b: bool)
    ensures
        b == (trimmed(input@) == "YES"@),
{
    same_str(&trim(&chars_of(input)), "YES")
}

} // verus!
