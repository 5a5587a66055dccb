//! The ignore-rule resolver: one rule set per directory, made from the lines
//! of that directory's ignore-pattern file and asked whether a path is
//! excluded. Compiling and matching the patterns is the work of the `ignore`
//! crate; what this module states about it is trusted, not proved.

use vstd::prelude::*;
use ignore::gitignore::{Gitignore, GitignoreBuilder};
use ignore::Match;
use crate::text::texts;

verus! {

/// `ignore::gitignore::Gitignore`, a compiled matcher. Opaque here.
#[verifier::external_type_specification]
#[verifier::external_body]
pub struct ExGitignore(ignore::gitignore::Gitignore);

/// `ignore::gitignore::GitignoreBuilder`, which collects pattern lines.
/// Opaque here.
#[verifier::external_type_specification]
#[verifier::external_body]
pub struct ExGitignoreBuilder(ignore::gitignore::GitignoreBuilder);

/// What a rule set says about a path.
#[derive(Clone, Copy, Debug, PartialEq, Eq, Structural)]
pub enum Verdict {
    /// No pattern applies to the path.
    Unmatched,
    /// The pattern of highest precedence that applies excludes the path.
    Ignored,
    /// The pattern of highest precedence that applies re-includes the path.
    Whitelisted,
}

/// The root directory that a builder was made for.
pub uninterp spec fn builder_root(builder: GitignoreBuilder) -> Seq<char>;

/// The lines handed to a builder so far, in order.
pub uninterp spec fn builder_lines(builder: GitignoreBuilder) -> Seq<Seq<char>>;

/// The root directory of the builder that a matcher was built from.
pub uninterp spec fn matcher_root(matcher: Gitignore) -> Seq<char>;

/// The lines of the builder that a matcher was built from.
pub uninterp spec fn matcher_lines(matcher: Gitignore) -> Seq<Seq<char>>;

/// Whether `GitignoreBuilder::build` succeeds for a builder made for `root`
/// that was handed `lines`.
pub uninterp spec fn patterns_compile(root: Seq<char>, lines: Seq<Seq<char>>) -> bool;

/// What `Gitignore::matched` answers for `path`, asked of a matcher built
/// for `root` from `lines`.
pub uninterp spec fn gitignore_verdict(
    root: Seq<char>,
    lines: Seq<Seq<char>>,
    path: Seq<char>,
    is_dir: bool,
) -> Verdict;

/// `GitignoreBuilder::new`. Trusted: the new builder is made for `root` and
/// has been handed no line.
#[verifier::external_body]
fn builder_new(root: &str) -> (builder: GitignoreBuilder)
    ensures
        builder_root(builder) == root@,
        builder_lines(builder) == Seq::<Seq<char>>::empty(),
{
    GitignoreBuilder::new(root)
}

/// `GitignoreBuilder::add_line`, with no source file named. Trusted: the
/// builder keeps its root and has been handed one more line. A line that
/// does not parse as a pattern is reported by the crate and skipped; the
/// report is dropped here.
#[verifier::external_body]
fn builder_add_line(builder: &mut GitignoreBuilder, line: &str)
    ensures
        builder_root(*final(builder)) == builder_root(*old(builder)),
        builder_lines(*final(builder)) == builder_lines(*old(builder)).push(line@),
{
    let _ = builder.add_line(None, line);
}

/// `GitignoreBuilder::build`, its error dropped. Trusted: whether it
/// succeeds depends on the root and the lines alone, and the matcher it
/// returns stands for the same root and lines.
#[verifier::external_body]
fn builder_build(builder: &GitignoreBuilder) -> (built: Option<Gitignore>)
    ensures
        built is Some == patterns_compile(builder_root(*builder), builder_lines(*builder)),
        built matches Some(matcher) ==> matcher_root(matcher) == builder_root(*builder)
            && matcher_lines(matcher) == builder_lines(*builder),
{
    builder.build().ok()
}

/// `Gitignore::empty`. Trusted: the matcher has an empty root and no lines.
#[verifier::external_body]
fn matcher_empty() -> (matcher: Gitignore)
    ensures
        matcher_root(matcher) == Seq::<char>::empty(),
        matcher_lines(matcher) == Seq::<Seq<char>>::empty(),
{
    Gitignore::empty()
}

/// `Gitignore::matched`. Trusted: the answer depends on the matcher's root
/// and lines, the path and the flag alone, and a matcher without lines
/// matches nothing.
#[verifier::external_body]
fn matcher_matched(matcher: &Gitignore, path: &str, is_dir: bool) -> (verdict: Verdict)
    ensures
        verdict == gitignore_verdict(matcher_root(*matcher), matcher_lines(*matcher), path@, is_dir),
        matcher_lines(*matcher).len() == 0 ==> verdict is Unmatched,
{
    match matcher.matched(path, is_dir) {
        Match::None => Verdict::Unmatched,
        Match::Ignore(_) => Verdict::Ignored,
        Match::Whitelist(_) => Verdict::Whitelisted,
    }
}

/// The character sequences of the lines of an ignore-pattern file.
pub open spec fn lines_model(lines: Option<Vec<String>>) -> Option<Seq<Seq<char>>> {
    match lines {
        None => None,
        Some(v) => Some(texts(v@)),
    }
}

/// A line without the byte-order marks it begins with.
pub open spec fn without_bom(line: Seq<char>) -> Seq<char>
    decreases line.len(),
{
    if line.len() > 0 && line[0] == '\u{feff}' {
        without_bom(line.drop_first())
    } else {
        line
    }
}

/// The lines handed to the pattern compiler for an ignore-pattern file:
/// its lines in order, the first without leading byte-order marks. A
/// directory without such a file hands over nothing.
pub open spec fn fed_lines(lines: Option<Seq<Seq<char>>>) -> Seq<Seq<char>> {
    match lines {
        None => Seq::empty(),
        Some(ls) => Seq::new(
            ls.len(),
            |i: int|
                if i == 0 {
                    without_bom(ls[i])
                } else {
                    ls[i]
                },
        ),
    }
}

/// Mathematical value of a [`RuleSet`]: the directory it is scoped to and
/// the pattern lines it was made from.
pub struct RuleSetModel {
    pub root: Seq<char>,
    pub lines: Seq<Seq<char>>,
}

/// The rule set that matches nothing.
pub open spec fn no_rules() -> RuleSetModel {
    RuleSetModel { root: Seq::empty(), lines: Seq::empty() }
}

/// The rule set of a directory: scoped to the directory and made from the
/// lines of its ignore-pattern file, or the rule set that matches nothing
/// where those lines do not compile.
pub open spec fn loaded(directory: Seq<char>, lines: Option<Seq<Seq<char>>>) -> RuleSetModel {
    if patterns_compile(directory, fed_lines(lines)) {
        RuleSetModel { root: directory, lines: fed_lines(lines) }
    } else {
        no_rules()
    }
}

/// Whether a rule set excludes a path. A rule set without lines excludes
/// nothing.
pub open spec fn excludes(rules: RuleSetModel, path: Seq<char>, is_dir: bool) -> bool {
    rules.lines.len() > 0 && gitignore_verdict(rules.root, rules.lines, path, is_dir) is Ignored
}

/// The ignore rules of one directory level.
pub struct RuleSet {
    matcher: Gitignore,
}

impl View for RuleSet {
    type V = RuleSetModel;

    closed spec fn view(&self) -> RuleSetModel {
        RuleSetModel { root: matcher_root(self.matcher), lines: matcher_lines(self.matcher) }
    }
}

impl Verdict {
    /// Whether the verdict excludes the path. A re-included path and one
    /// that no pattern applies to are both kept.
    pub fn is_ignore(self) -> (b: bool)
        ensures
            b == (self is Ignored),
    {
        match self {
            Verdict::Ignored => true,
            Verdict::Unmatched => false,
            Verdict::Whitelisted => false,
        }
    }
}

/// The line without the byte-order marks it begins with.
pub fn strip_bom(line: &str) -> (rest: &str)
    ensures
        rest@ == without_bom(line@),
{
    let n = line.unicode_len();
    let mut k: usize = 0;
    proof {
        assert(line@.skip(0) =~= line@);
    }
    while k < n && line.get_char(k) == '\u{feff}'
        invariant
            k <= n,
            n == line@.len(),
            without_bom(line@) == without_bom(line@.skip(k as int)),
        decreases n - k,
    {
        proof {
            assert(line@.skip(k as int).drop_first() =~= line@.skip(k + 1));
        }
        k += 1;
    }
    proof {
        assert(line@.subrange(k as int, n as int) =~= line@.skip(k as int));
    }
    line.substring_char(k, n)
}

impl RuleSet {
    /// The rule set that matches nothing.
    pub fn empty() -> (rules: RuleSet)
        ensures
            rules@ == no_rules(),
    {
        RuleSet { matcher: matcher_empty() }
    }

    /// The rule set for the outcome of compiling a directory's patterns:
    /// the compiled matcher, or the rule set that matches nothing where
    /// compiling failed.
    pub fn from_build(built: Option<Gitignore>) -> (rules: RuleSet)
        ensures
            match built {
                Some(matcher) => rules@ == (RuleSetModel {
                    root: matcher_root(matcher),
                    lines: matcher_lines(matcher),
                }),
                None => rules@ == no_rules(),
            },
    {
        match built {
            Some(matcher) => RuleSet { matcher },
            None => RuleSet::empty(),
        }
    }

    /// Loads the rule set of `directory` from the lines of its
    /// ignore-pattern file; `None` where the directory has no such file.
    /// Lines that are not patterns are skipped. Patterns that cannot be
    /// compiled together leave a rule set that matches nothing.
    pub fn load(directory: &str, ignore_lines: &Option<Vec<String>>) -> (rules: RuleSet)
        ensures
            rules@ == loaded(directory@, lines_model(*ignore_lines)),
    {
        let mut builder = builder_new(directory);
        match ignore_lines {
            None => {},
            Some(lines) => {
                let ghost fed = fed_lines(lines_model(*ignore_lines));
                let mut i: usize = 0;
                while i < lines.len()
                    invariant
                        i <= lines.len(),
                        fed == fed_lines(Some(texts(lines@))),
                        builder_root(builder) == directory@,
                        builder_lines(builder) == fed.take(i as int),
                    decreases lines.len() - i,
                {
                    if i == 0 {
                        builder_add_line(&mut builder, strip_bom(lines[i].as_str()));
                    } else {
                        builder_add_line(&mut builder, lines[i].as_str());
                    }
                    proof {
                        assert(fed.take(i + 1) =~= fed.take(i as int).push(fed[i as int]));
                    }
                    i += 1;
                }
                proof {
                    assert(fed.take(i as int) =~= fed);
                }
            },
        }
        RuleSet::from_build(builder_build(&builder))
    }

    /// Whether `path` is excluded under the loaded patterns. `is_dir` says
    /// whether the path is a directory.
    pub fn matches(&self, path: &str, is_dir: bool) -> (excluded: bool)
        ensures
            excluded == excludes(self@, path@, is_dir),
    {
        matcher_matched(&self.matcher, path, is_dir).is_ignore()
    }
}

} // verus!
