//! The rules of a directory's `.gitignore` file, compiled once and queried
//! for each path the listing and the tree consider.

use ignore::gitignore::{Gitignore, GitignoreBuilder};
use vstd::prelude::*;
use vstd::string::*;

use crate::text::chars_of;

verus! {

#[verifier::external_type_specification]
#[verifier::external_body]
pub struct ExGitignore(Gitignore);

#[verifier::external_type_specification]
#[verifier::external_body]
pub struct ExGitignoreBuilder(GitignoreBuilder);

/// Whether gitignore rules rooted at `root`, given as the lines of the file
/// (each line added in order, a line that is not a valid glob skipped, and no
/// rule at all when the globs cannot be combined), exclude the path `path`
/// (`is_dir` telling whether it names a directory).
pub uninterp spec fn gitignore_excludes(
    root: Seq<char>,
    lines: Seq<Seq<char>>,
    path: Seq<char>,
    is_dir: bool,
) -> bool;

/// A gitignore builder together with what has been handed to it: the root
/// it was created with and the lines added, in order.
pub struct RuleBuilder {
    builder: GitignoreBuilder,
    root: Ghost<Seq<char>>,
    lines: Ghost<Seq<Seq<char>>>,
}

impl RuleBuilder {
    /// What the builder was created with.
    pub closed spec fn root_view(&self) -> Seq<char> {
        self.root@
    }

    /// The lines added to the builder, in order.
    pub closed spec fn lines_view(&self) -> Seq<Seq<char>> {
        self.lines@
    }

    /// `GitignoreBuilder::new`: a builder of rules rooted at `root`, with no
    /// line added yet.
    #[verifier::external_body]
    fn new(root: &str) -> (b: Self)
        ensures
            b.root_view() == root@,
            b.lines_view() == Seq::<Seq<char>>::empty(),
    {
        RuleBuilder {
            builder: GitignoreBuilder::new(root),
            root: Ghost(root@),
            lines: Ghost(Seq::empty()),
        }
    }

    /// `GitignoreBuilder::add_line`: adds one line of a gitignore file. A
    /// line that does not parse as a glob adds no rule; that error is
    /// dropped, as reading a gitignore file drops it.
    #[verifier::external_body]
    fn add_line(&mut self, line: &str)
        ensures
            final(self).root_view() == old(self).root_view(),
            final(self).lines_view() == old(self).lines_view().push(line@),
    {
        let _ = self.builder.add_line(None, line);
        self.lines = Ghost(self.lines@.push(line@));
    }

    /// `GitignoreBuilder::build`: the matcher of the lines added, or, when
    /// their globs cannot be combined, `Gitignore::empty`, which excludes
    /// nothing (as reading a gitignore file does).
    #[verifier::external_body]
    fn build(&self) -> (rules: IgnoreRules)
        ensures
            rules.root_view() == self.root_view(),
            rules.lines_seq() == self.lines_view(),
    {
        IgnoreRules {
            matcher: self.builder.build().unwrap_or_else(|_| Gitignore::empty()),
            root: Ghost(self.root@),
            lines: Ghost(self.lines@),
        }
    }
}

/// The compiled rules of one `.gitignore` file, with the root and the lines
/// they were built from.
pub struct IgnoreRules {
    matcher: Gitignore,
    root: Ghost<Seq<char>>,
    lines: Ghost<Seq<Seq<char>>>,
}

/// The lines of `lines` as character sequences.
pub open spec fn lines_view(lines: Seq<String>) -> Seq<Seq<char>> {
    lines.map_values(|l: String| l@)
}

/// A file's first line without the byte-order marks it may start with.
pub open spec fn without_bom(line: Seq<char>) -> Seq<char>
    decreases line.len(),
{
    if line.len() > 0 && line[0] == '\u{feff}' {
        without_bom(line.drop_first())
    } else {
        line
    }
}

/// The lines of a gitignore file as its rules read them: the first line
/// without leading byte-order marks, the others as they are.
pub open spec fn rule_lines(file_lines: Seq<Seq<char>>) -> Seq<Seq<char>> {
    if file_lines.len() == 0 {
        file_lines
    } else {
        file_lines.update(0, without_bom(file_lines[0]))
    }
}

/// `line` without its leading byte-order marks.
fn strip_bom(line: &String) -> (r: String)
    ensures
        r@ == without_bom(line@),
{
    let v = chars_of(line.as_str());
    let mut i: usize = 0;
    assert(v@.subrange(0, v@.len() as int) =~= v@);
    while i < v.len() && v[i] == '\u{feff}'
        invariant
            i <= v@.len(),
            without_bom(v@) == without_bom(v@.subrange(i as int, v@.len() as int)),
        decreases v.len() - i,
    {
        assert(v@.subrange(i as int, v@.len() as int).drop_first() =~= v@.subrange(
            i + 1,
            v@.len() as int,
        ));
        i = i + 1;
    }
    String::from_str(line.as_str().substring_char(i, v.len()))
}

impl IgnoreRules {
    /// Where the rules are rooted.
    pub closed spec fn root_view(&self) -> Seq<char> {
        self.root@
    }

    /// The lines the rules were compiled from.
    pub closed spec fn lines_seq(&self) -> Seq<Seq<char>> {
        self.lines@
    }

    /// Compiles the lines of a gitignore file whose directory is `root`.
    pub fn compile(root: String, file_lines: Vec<String>) -> (rules: Self)
        ensures
            rules.root_view() == root@,
            rules.lines_seq() == rule_lines(lines_view(file_lines@)),
    {
        let mut builder = RuleBuilder::new(root.as_str());
        let mut i: usize = 0;
        while i < file_lines.len()
            invariant
                i <= file_lines@.len(),
                builder.root_view() == root@,
                builder.lines_view() == rule_lines(lines_view(file_lines@)).take(i as int),
            decreases file_lines.len() - i,
        {
            let line = if i == 0 {
                strip_bom(&file_lines[i])
            } else {
                file_lines[i].clone()
            };
            let ghost before = builder.lines_view();
            builder.add_line(line.as_str());
            assert(rule_lines(lines_view(file_lines@)).take(i + 1) =~= before.push(line@));
            i = i + 1;
        }
        assert(rule_lines(lines_view(file_lines@)).take(i as int) =~= rule_lines(lines_view(file_lines@)));
        builder.build()
    }

    /// `Gitignore::matched(..).is_ignore()`: whether the rules exclude `path`.
    #[verifier::external_body]
    pub(crate) fn excludes(&self, path: &str, is_dir: bool) -> (r: bool)
        ensures
            r == gitignore_excludes(self.root_view(), self.lines_seq(), path@, is_dir),
    {
        self.matcher.matched(path, is_dir).is_ignore()
    }
}

} // verus!
