//! The glob engine of the `ignore` crate, as this library uses it.
//!
//! A builder collects pattern lines one at a time; a built matcher answers
//! whether a path, or a directory above it, is ignored. What each of them holds
//! is named by `builder_globs` / `matcher_globs` (the pattern texts kept, in the
//! order they were added) and `builder_root` / `matcher_root`.
use crate::path::is_absolute;
use ignore::gitignore::Gitignore;
use ignore::gitignore::GitignoreBuilder;
use vstd::prelude::*;

verus! {

#[verifier::external_type_specification]
#[verifier::external_body]
pub struct ExGitignore(Gitignore);

#[verifier::external_type_specification]
#[verifier::external_body]
pub struct ExGitignoreBuilder(GitignoreBuilder);

#[verifier::external_type_specification]
#[verifier::external_body]
pub struct ExIgnoreError(ignore::Error);

/// The outcome of matching one path: the last rule that matched the path, or
/// else the nearest directory above it, decides.
#[derive(PartialEq, Eq, Structural, Clone, Copy, Debug)]
pub enum Verdict {
    /// A plain rule decided: the path is excluded.
    Ignore,
    /// A `!` rule decided: the path is kept.
    Whitelist,
    /// No rule matched the path or any directory above it.
    Unmatched,
}

/// The pattern texts a builder holds, in the order they were added.
pub uninterp spec fn builder_globs(b: GitignoreBuilder) -> Seq<Seq<char>>;

/// The directory a builder matches paths against.
pub uninterp spec fn builder_root(b: GitignoreBuilder) -> Seq<char>;

/// The pattern texts a built matcher holds, in the order they were added.
pub uninterp spec fn matcher_globs(g: Gitignore) -> Seq<Seq<char>>;

/// The directory a built matcher matches paths against.
pub uninterp spec fn matcher_root(g: Gitignore) -> Seq<char>;

/// Whether the glob compiler, as set up by `new_builder`, refuses a pattern
/// text (an unterminated `[`, an unterminated `{`, a reversed range, a dangling
/// `\`).
pub uninterp spec fn pattern_rejected(pattern: Seq<char>) -> bool;

/// Whether the glob engine, as set up by `new_builder`, fails to assemble the
/// pattern texts `globs` into one matcher.
pub uninterp spec fn set_rejected(globs: Seq<Seq<char>>) -> bool;

/// What matching `path` against the rules `globs` rooted at `root` decides.
pub uninterp spec fn verdict_of(
    root: Seq<char>,
    globs: Seq<Seq<char>>,
    path: Seq<char>,
    is_dir: bool,
) -> Verdict;

/// The characters `char::is_whitespace` accepts (Unicode `White_Space`).
pub open spec fn is_white_space(c: char) -> bool {
    let u = c as u32;
    (9 <= u <= 13) || u == 32 || u == 0x85 || u == 0xa0 || u == 0x1680 || (0x2000 <= u
        <= 0x200a) || u == 0x2028 || u == 0x2029 || u == 0x202f || u == 0x205f || u == 0x3000
}

/// `s` without its trailing white space.
pub open spec fn trim_end(s: Seq<char>) -> Seq<char>
    decreases s.len(),
{
    if s.len() > 0 && is_white_space(s.last()) {
        trim_end(s.drop_last())
    } else {
        s
    }
}

/// Whether `s` ends in an escaped space, `\ `, which keeps trailing white space.
pub open spec fn ends_in_escaped_space(s: Seq<char>) -> bool {
    s.len() >= 2 && s[s.len() - 2] == '\\' && s[s.len() - 1] == ' '
}

/// The pattern a line holds: none for a comment (`#` first) or a blank line;
/// else the line without trailing white space, unless that is escaped.
pub open spec fn pattern_text(line: Seq<char>) -> Option<Seq<char>> {
    if line.len() > 0 && line[0] == '#' {
        None
    } else {
        let t = if ends_in_escaped_space(line) {
            line
        } else {
            trim_end(line)
        };
        if t.len() == 0 {
            None
        } else {
            Some(t)
        }
    }
}

/// Whether adding `line` to a builder fails.
pub open spec fn line_rejected(line: Seq<char>) -> bool {
    pattern_text(line) is Some && pattern_rejected(pattern_text(line)->0)
}

/// `globs` with the pattern of `line` appended, where the line holds one.
pub open spec fn with_line(globs: Seq<Seq<char>>, line: Seq<char>) -> Seq<Seq<char>> {
    match pattern_text(line) {
        Some(t) => globs.push(t),
        None => globs,
    }
}

/// Relies on `GitignoreBuilder::new` (an empty builder whose root is `root`;
/// only a leading `./` would be dropped) and on
/// `GitignoreBuilder::allow_unclosed_class(false)`, after which an unterminated
/// `[` is refused rather than read literally.
#[verifier::external_body]
pub(crate) fn new_builder(root: &str) -> (r: GitignoreBuilder)
    requires
        is_absolute(root@),
    ensures
        builder_globs(r) == Seq::<Seq<char>>::empty(),
        builder_root(r) == root@,
{
    let mut b = GitignoreBuilder::new(root);
    b.allow_unclosed_class(false);
    b
}

/// Relies on `GitignoreBuilder::add_line`: comment and blank lines are skipped,
/// trailing white space is trimmed, and the remaining text is kept as one more
/// glob unless the glob compiler refuses it, in which case nothing is kept.
#[verifier::external_body]
pub(crate) fn add_line(b: &mut GitignoreBuilder, line: &str) -> (r: Result<(), ignore::Error>)
    ensures
        builder_root(*final(b)) == builder_root(*old(b)),
        r is Err <==> (pattern_text(line@) is Some && pattern_rejected(pattern_text(line@)->0)),
        r is Ok ==> builder_globs(*final(b)) == with_line(builder_globs(*old(b)), line@),
        r is Err ==> builder_globs(*final(b)) == builder_globs(*old(b)),
{
    b.add_line(None, line).map(|_| ())
}

/// Relies on `GitignoreBuilder::build`: whether it fails depends on the globs
/// held alone; on success the matcher has the builder's root and globs.
#[verifier::external_body]
pub(crate) fn build(b: &GitignoreBuilder) -> (r: Result<Gitignore, ignore::Error>)
    ensures
        r is Err <==> set_rejected(builder_globs(*b)),
        r is Ok ==> matcher_globs(r->Ok_0) == builder_globs(*b),
        r is Ok ==> matcher_root(r->Ok_0) == builder_root(*b),
{
    b.build()
}

/// Whether `p` starts with `./`.
pub open spec fn starts_with_dot_slash(p: Seq<char>) -> bool {
    p.len() >= 2 && p[0] == '.' && p[1] == '/'
}

/// Relies on `Gitignore::matched_path_or_any_parents`: the verdict for a path
/// relative to the matcher's root is a function of the root, the globs, the
/// path and the directory flag; a matcher without globs matches nothing. The
/// call panics when the path, after a leading
/// `./` and the root are stripped, still starts with `/`; with an absolute root
/// and a relative path that does not start with `./`, neither is stripped.
#[verifier::external_body]
pub(crate) fn matched_path_or_any_parents(g: &Gitignore, path: &str, is_dir: bool) -> (r: Verdict)
    requires
        is_absolute(matcher_root(*g)),
        !is_absolute(path@),
        !starts_with_dot_slash(path@),
    ensures
        r == verdict_of(matcher_root(*g), matcher_globs(*g), path@, is_dir),
        matcher_globs(*g).len() == 0 ==> r == Verdict::Unmatched,
{
    match g.matched_path_or_any_parents(path, is_dir) {
        ignore::Match::Ignore(_) => Verdict::Ignore,
        ignore::Match::Whitelist(_) => Verdict::Whitelist,
        ignore::Match::None => Verdict::Unmatched,
    }
}

} // verus!
