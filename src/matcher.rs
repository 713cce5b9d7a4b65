//! The ignore rules of one project root, compiled once and queried per path.
use crate::compile::{
    all_lines_accepted,
    compile_lines,
    first_rejected_line,
    globs_of,
    lines_of,
    split_lines,
    CompileError,
};
use crate::engine::{
    matched_path_or_any_parents,
    matcher_globs,
    matcher_root,
    set_rejected,
    starts_with_dot_slash,
    verdict_of,
    Verdict,
};
use crate::path::{
    components,
    components_of,
    concat_components,
    is_absolute,
    is_component,
    join_components,
    lemma_components_join_onto,
    lemma_components_joined,
    lemma_components_wf,
    joined,
    resolved,
    strip_components,
    strip_components_of,
};
use ignore::gitignore::Gitignore;
use vstd::prelude::*;
use vstd::string::*;

verus! {

/// The components of `path` below `root`, where `path` is absolute or taken
/// from `root`; none when it lies outside `root`.
pub open spec fn relative_components(root: Seq<char>, path: Seq<char>) -> Option<Seq<Seq<char>>> {
    strip_components(resolved(components(root), path), components(root))
}

/// `path` written relative to `root`, where it lies under `root`.
pub open spec fn relative_text(root: Seq<char>, path: Seq<char>) -> Option<Seq<char>> {
    match relative_components(root, path) {
        Some(cs) => Some(joined(cs)),
        None => None,
    }
}

/// The text that the glob engine matches for a path below the root: the root
/// itself is asked for as `.`.
pub open spec fn query_text(rel: Seq<Seq<char>>) -> Seq<char> {
    if rel.len() == 0 {
        seq!['.']
    } else {
        joined(rel)
    }
}

/// Whether the rules `globs` rooted at `root` exclude `path`: a path outside
/// the root never is; one under it is when the rule that decides for it, or
/// else for the nearest directory above it, is a plain rule.
pub open spec fn ignored(root: Seq<char>, globs: Seq<Seq<char>>, path: Seq<char>, is_dir: bool) -> bool {
    match relative_components(root, path) {
        Some(rel) => verdict_of(root, globs, query_text(rel), is_dir) == Verdict::Ignore,
        None => false,
    }
}

/// What compiling the ignore file `text` under `root` gives: the first line
/// whose pattern is refused, by number, if there is one; else the rules in
/// file order, unless the glob engine refuses that set of patterns.
pub open spec fn compiled_from(
    root: Seq<char>,
    text: Seq<char>,
    r: Result<CodexIgnore, CompileError>,
) -> bool {
    let lines = lines_of(text);
    &&& (r matches Err(CompileError::InvalidPattern(n)) ==> first_rejected_line(lines, n as int))
    &&& (!all_lines_accepted(lines) ==> r matches Err(CompileError::InvalidPattern(_)))
    &&& (r matches Err(CompileError::Build) ==> all_lines_accepted(lines) && set_rejected(
        globs_of(lines),
    ))
    &&& (all_lines_accepted(lines) && !set_rejected(globs_of(lines)) ==> r is Ok)
    &&& (r matches Ok(m) ==> m@ == (root, globs_of(lines)))
}

/// The rules of one ignore file together with the root they apply under.
#[derive(Debug)]
pub struct CodexIgnore {
    root: String,
    matcher: Gitignore,
}

impl View for CodexIgnore {
    /// The root, and the pattern texts of the rules in file order.
    type V = (Seq<char>, Seq<Seq<char>>);

    closed spec fn view(&self) -> (Seq<char>, Seq<Seq<char>>) {
        (self.root@, matcher_globs(self.matcher))
    }
}

impl CodexIgnore {
    /// The root is absolute, and the glob engine matches under that same root.
    #[verifier::type_invariant]
    spec fn inv(&self) -> bool {
        is_absolute(self.root@) && matcher_root(self.matcher) == self.root@
    }

    /// Compiles the text of an ignore file into rules under `root`, an absolute
    /// path. The first line whose pattern is not a valid glob is reported by
    /// its number.
    pub fn new(root: &str, text: &str) -> (r: Result<CodexIgnore, CompileError>)
        requires
            is_absolute(root@),
        ensures
            compiled_from(root@, text@, r),
    {
        let lines = split_lines(text);
        match compile_lines(root, &lines) {
            Ok(matcher) => Ok(CodexIgnore { root: root.to_owned(), matcher }),
            Err(e) => Err(e),
        }
    }

    /// The rules under `root` given the contents of its ignore file, if it has
    /// one. Without an ignore file there are no rules, which is no error.
    pub fn load(root: &str, contents: Option<&str>) -> (r: Result<Option<CodexIgnore>, CompileError>)
        requires
            is_absolute(root@),
        ensures
            contents is None ==> r matches Ok(None),
            contents is Some ==> !(r matches Ok(None)) && compiled_from(
                root@,
                contents->0@,
                match r {
                    Ok(Some(m)) => Ok(m),
                    Ok(None) => Err(CompileError::Build),
                    Err(e) => Err(e),
                },
            ),
    {
        match contents {
            None => Ok(None),
            Some(text) => match CodexIgnore::new(root, text) {
                Ok(m) => Ok(Some(m)),
                Err(e) => Err(e),
            },
        }
    }

    /// The root that relative paths are taken from.
    pub fn root(&self) -> (r: &str)
        ensures
            r@ == self@.0,
    {
        self.root.as_str()
    }

    /// Whether the file at `path` is excluded.
    pub fn is_file_ignored(&self, path: &str) -> (r: bool)
        ensures
            r == ignored(self@.0, self@.1, path@, false),
    {
        self.is_ignored(path, false)
    }

    /// Whether the directory at `path` is excluded.
    pub fn is_dir_ignored(&self, path: &str) -> (r: bool)
        ensures
            r == ignored(self@.0, self@.1, path@, true),
    {
        self.is_ignored(path, true)
    }

    /// `path` written relative to the root; none when it lies outside it.
    pub fn relative_path(&self, path: &str) -> (r: Option<String>)
        ensures
            match r {
                Some(s) => relative_text(self@.0, path@) == Some(s@),
                None => relative_text(self@.0, path@) is None,
            },
    {
        match self.relative_components(path) {
            Some(cs) => Some(join_components(&cs)),
            None => None,
        }
    }

    fn is_ignored(&self, path: &str, is_dir: bool) -> (r: bool)
        ensures
            r == ignored(self@.0, self@.1, path@, is_dir),
    {
        proof {
            use_type_invariant(self);
        }
        match self.relative_components(path) {
            None => false,
            Some(rel) => {
                let query = if rel.len() == 0 {
                    proof {
                        reveal_strlit(".");
                    }
                    String::from_str(".")
                } else {
                    proof {
                        lemma_joined_relative(rel.deep_view());
                    }
                    join_components(&rel)
                };
                proof {
                    if rel.len() == 0 {
                        assert(query@ =~= seq!['.']);
                    }
                }
                matched_path_or_any_parents(&self.matcher, query.as_str(), is_dir) == Verdict::Ignore
            },
        }
    }

    /// The components of `path` below the root.
    fn relative_components(&self, path: &str) -> (r: Option<Vec<String>>)
        ensures
            match r {
                Some(rel) => {
                    &&& relative_components(self@.0, path@) == Some(rel.deep_view())
                    &&& forall|i: int|
                        0 <= i < rel.deep_view().len() ==> is_component(#[trigger] rel.deep_view()[i])
                },
                None => relative_components(self@.0, path@) is None,
            },
    {
        let root_cs = components_of(self.root.as_str());
        let path_cs = components_of(path);
        let absolute = path.unicode_len() > 0 && path.get_char(0) == '/';
        let full = if absolute {
            path_cs
        } else {
            concat_components(&root_cs, &path_cs)
        };
        assert(full.deep_view() == resolved(components(self.root@), path@));
        assert forall|i: int| 0 <= i < full.deep_view().len() implies is_component(
            #[trigger] full.deep_view()[i],
        ) by {
            if !absolute {
                if i < root_cs.deep_view().len() {
                    assert(full.deep_view()[i] == root_cs.deep_view()[i]);
                } else {
                    assert(full.deep_view()[i] == path_cs.deep_view()[i - root_cs.deep_view().len()]);
                }
            }
        }
        let r = strip_components_of(&full, &root_cs);
        proof {
            if let Some(rel) = &r {
                assert forall|i: int| 0 <= i < rel.deep_view().len() implies is_component(
                    #[trigger] rel.deep_view()[i],
                ) by {
                    assert(rel.deep_view()[i] == full.deep_view()[i + root_cs.deep_view().len()]);
                }
            }
        }
        r
    }
}

/// Components joined with `/` make a relative path that starts with the first
/// component, so not with `./`.
pub proof fn lemma_joined_relative(cs: Seq<Seq<char>>)
    requires
        forall|i: int| 0 <= i < cs.len() ==> is_component(#[trigger] cs[i]),
    ensures
        !is_absolute(joined(cs)),
        !starts_with_dot_slash(joined(cs)),
        cs.len() > 0 ==> joined(cs).len() >= cs[0].len(),
        cs.len() > 0 ==> forall|k: int| 0 <= k < cs[0].len() ==> #[trigger] joined(cs)[k] == cs[0][k],
    decreases cs.len(),
{
    if cs.len() > 1 {
        let front = cs.drop_last();
        assert forall|i: int| 0 <= i < front.len() implies is_component(#[trigger] front[i]) by {
            assert(front[i] == cs[i]);
        }
        lemma_joined_relative(front);
        assert(front[0] == cs[0]);
        assert forall|k: int| 0 <= k < cs[0].len() implies #[trigger] joined(cs)[k] == cs[0][k] by {
            assert(joined(cs)[k] == joined(front)[k]);
        }
    }
    if cs.len() > 0 {
        assert(is_component(cs[0]));
        if cs[0][0] == '/' {
            assert(cs[0].contains('/'));
        }
        if cs[0].len() >= 2 && cs[0][1] == '/' {
            assert(cs[0].contains('/'));
        }
        if cs[0].len() == 1 && cs[0][0] == '.' {
            assert(cs[0] =~= seq!['.']);
        }
    }
}

/// The components of a path below the root are components.
proof fn lemma_relative_components_wf(root: Seq<char>, p: Seq<char>)
    requires
        relative_components(root, p) is Some,
    ensures
        forall|i: int|
            0 <= i < relative_components(root, p)->0.len() ==> is_component(
                #[trigger] relative_components(root, p)->0[i],
            ),
{
    let rc = components(root);
    let full = resolved(rc, p);
    let cs = relative_components(root, p)->0;
    lemma_components_wf(root);
    lemma_components_wf(p);
    assert forall|i: int| 0 <= i < cs.len() implies is_component(#[trigger] cs[i]) by {
        assert(cs[i] == full[i + rc.len()]);
        if !is_absolute(p) {
            assert(full[i + rc.len()] == components(p)[i]);
        }
    }
}

/// A path strictly under the root, written relative to the root and taken from
/// the root again, is the same path: it resolves to the same components, and is
/// written relative to the root the same way.
pub proof fn lemma_relative_path_round_trip(root: Seq<char>, p: Seq<char>)
    requires
        relative_components(root, p) is Some,
        relative_components(root, p)->0.len() > 0,
    ensures
        resolved(components(root), relative_text(root, p)->0) == resolved(components(root), p),
        relative_text(root, relative_text(root, p)->0) == relative_text(root, p),
{
    let rc = components(root);
    let full = resolved(rc, p);
    let cs = relative_components(root, p)->0;
    lemma_relative_components_wf(root, p);
    let t = joined(cs);
    lemma_joined_relative(cs);
    lemma_components_joined(cs);
    assert(full.subrange(0, rc.len() as int) == rc);
    assert(full =~= rc + cs);
    assert(resolved(rc, t) == rc + cs);
    assert((rc + cs).subrange(0, rc.len() as int) =~= rc);
    assert((rc + cs).skip(rc.len() as int) =~= cs);
}

/// For a path strictly under an absolute root, the root text joined with `/`
/// to the path's relative form lies under the root with that same relative
/// form.
pub proof fn lemma_root_join_round_trip(root: Seq<char>, p: Seq<char>)
    requires
        is_absolute(root),
        relative_components(root, p) is Some,
        relative_components(root, p)->0.len() > 0,
    ensures
        relative_text(root, root + seq!['/'] + relative_text(root, p)->0) == relative_text(root, p),
{
    let rc = components(root);
    let cs = relative_components(root, p)->0;
    lemma_relative_components_wf(root, p);
    lemma_components_join_onto(root, cs);
    let q = root + seq!['/'] + joined(cs);
    assert(q[0] == root[0]);
    assert(resolved(rc, q) == rc + cs);
    assert((rc + cs).subrange(0, rc.len() as int) =~= rc);
    assert((rc + cs).skip(rc.len() as int) =~= cs);
}

/// The root itself lies under the root with nothing left: it is written as the
/// empty path, and its verdict is what the rules decide for `.`.
pub proof fn lemma_root_query(root: Seq<char>, globs: Seq<Seq<char>>, is_dir: bool)
    requires
        is_absolute(root),
    ensures
        relative_components(root, root) == Some(Seq::<Seq<char>>::empty()),
        relative_text(root, root) == Some(Seq::<char>::empty()),
        ignored(root, globs, root, is_dir) == (verdict_of(root, globs, seq!['.'], is_dir)
            == Verdict::Ignore),
{
    let rc = components(root);
    assert(rc.subrange(0, rc.len() as int) =~= rc);
    assert(rc.skip(rc.len() as int) =~= Seq::<Seq<char>>::empty());
}

/// A query depends on the path only through the components it resolves to:
/// one path, asked again or written another way, gets the same verdict and the
/// same relative form.
pub proof fn lemma_query_depends_on_resolved_path(
    root: Seq<char>,
    globs: Seq<Seq<char>>,
    p: Seq<char>,
    q: Seq<char>,
    is_dir: bool,
)
    requires
        resolved(components(root), p) == resolved(components(root), q),
    ensures
        ignored(root, globs, p, is_dir) == ignored(root, globs, q, is_dir),
        relative_text(root, p) == relative_text(root, q),
{
}

} // verus!
