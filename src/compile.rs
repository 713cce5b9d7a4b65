//! Turning the text of an ignore file into a matcher.
use crate::engine::{
    add_line,
    build,
    builder_globs,
    builder_root,
    line_rejected,
    matcher_globs,
    set_rejected,
    matcher_root,
    new_builder,
    with_line,
};
use crate::path::is_absolute;
use ignore::gitignore::Gitignore;
use vstd::prelude::*;
use vstd::string::*;

verus! {

/// Why the rules of an ignore file could not be compiled.
#[derive(PartialEq, Eq, Structural, Clone, Copy, Debug)]
pub enum CompileError {
    /// The pattern on this line (counted from 1) is not a valid glob.
    InvalidPattern(usize),
    /// The glob engine could not assemble the accepted patterns into one matcher.
    Build,
}

/// The byte order mark, which an editor may put before the first line.
pub open spec fn is_bom(c: char) -> bool {
    c as u32 == 0xfeff
}

/// `l` without the byte order marks it starts with.
pub open spec fn strip_bom(l: Seq<char>) -> Seq<char>
    decreases l.len(),
{
    if l.len() > 0 && is_bom(l[0]) {
        strip_bom(l.drop_first())
    } else {
        l
    }
}

/// `l` without the carriage return that ends it, if one does.
pub open spec fn without_cr(l: Seq<char>) -> Seq<char> {
    if l.len() > 0 && l.last() == '\r' {
        l.drop_last()
    } else {
        l
    }
}

/// Reads `s` left to right: the lines closed by a line feed so far, and the
/// open line.
pub open spec fn line_scan(s: Seq<char>) -> (Seq<Seq<char>>, Seq<char>)
    decreases s.len(),
{
    if s.len() == 0 {
        (seq![], seq![])
    } else {
        let (done, open) = line_scan(s.drop_last());
        if s.last() == '\n' {
            (done.push(without_cr(open)), seq![])
        } else {
            (done, open.push(s.last()))
        }
    }
}

/// The lines of `s` as a reader of text lines yields them: split at line feeds,
/// each without its `\r\n` or `\n`, and no empty line after a final line feed.
pub open spec fn raw_lines(s: Seq<char>) -> Seq<Seq<char>> {
    let (done, open) = line_scan(s);
    if open.len() == 0 {
        done
    } else {
        done.push(open)
    }
}

/// The lines of an ignore file: its text lines, the first without a byte order
/// mark.
pub open spec fn lines_of(s: Seq<char>) -> Seq<Seq<char>> {
    let ls = raw_lines(s);
    if ls.len() == 0 {
        ls
    } else {
        ls.update(0, strip_bom(ls[0]))
    }
}

/// The patterns that `lines` hold, in order.
pub open spec fn globs_of(lines: Seq<Seq<char>>) -> Seq<Seq<char>>
    decreases lines.len(),
{
    if lines.len() == 0 {
        seq![]
    } else {
        with_line(globs_of(lines.drop_last()), lines.last())
    }
}

/// Whether `n` is the number (counted from 1) of the first line of `lines`
/// whose pattern is refused.
pub open spec fn first_rejected_line(lines: Seq<Seq<char>>, n: int) -> bool {
    &&& 1 <= n <= lines.len()
    &&& line_rejected(lines[n - 1])
    &&& forall|j: int| 0 <= j < n - 1 ==> !line_rejected(#[trigger] lines[j])
}

/// Whether every line of `lines` holds a valid pattern, or none.
pub open spec fn all_lines_accepted(lines: Seq<Seq<char>>) -> bool {
    forall|j: int| 0 <= j < lines.len() ==> !line_rejected(#[trigger] lines[j])
}

/// The lines of `text`, as an ignore file reader yields them.
pub fn split_lines(text: &str) -> (r: Vec<String>)
    ensures
        r.deep_view() == lines_of(text@),
{
    let n = text.unicode_len();
    let mut done: Vec<String> = Vec::new();
    let mut start: usize = 0;
    let mut i: usize = 0;
    while i < n
        invariant
            n == text@.len(),
            start <= i <= n,
            line_scan(text@.subrange(0, i as int)) == (done.deep_view(), text@.subrange(
                start as int,
                i as int,
            )),
        decreases n - i,
    {
        let c = text.get_char(i);
        let ghost open = text@.subrange(start as int, i as int);
        assert(text@.subrange(0, i + 1).drop_last() =~= text@.subrange(0, i as int));
        if c == '\n' {
            let end = if i > start && text.get_char(i - 1) == '\r' {
                i - 1
            } else {
                i
            };
            let line = text.substring_char(start, end);
            assert(line@ =~= without_cr(open));
            done.push(line.to_owned());
            assert(text@.subrange(i + 1, i + 1) =~= Seq::<char>::empty());
            start = i + 1;
        } else {
            assert(text@.subrange(start as int, i + 1) =~= open.push(c));
        }
        i = i + 1;
    }
    assert(text@.subrange(0, n as int) =~= text@);
    if start < n {
        let line = text.substring_char(start, n);
        done.push(line.to_owned());
    }
    let ghost raw = done.deep_view();
    assert(raw =~= raw_lines(text@));
    if done.len() > 0 {
        let first = strip_bom_of(done[0].as_str());
        done.set(0, first);
        assert(done.deep_view() =~= raw.update(0, strip_bom(raw[0])));
    }
    done
}

/// `l` without the byte order marks it starts with.
fn strip_bom_of(l: &str) -> (r: String)
    ensures
        r@ == strip_bom(l@),
{
    let n = l.unicode_len();
    let mut k: usize = 0;
    assert(l@.subrange(0, n as int) =~= l@);
    while k < n && l.get_char(k) as u32 == 0xfeff
        invariant
            n == l@.len(),
            k <= n,
            strip_bom(l@.subrange(k as int, n as int)) == strip_bom(l@),
        decreases n - k,
    {
        assert(l@.subrange(k + 1, n as int) =~= l@.subrange(k as int, n as int).drop_first());
        k = k + 1;
    }
    l.substring_char(k, n).to_owned()
}

/// Compiles the lines of an ignore file, in order, into a matcher rooted at
/// `root`; the first line whose pattern is refused is reported by number, and
/// with every line accepted the matcher is built unless the glob engine
/// refuses the set of patterns.
pub fn compile_lines(root: &str, lines: &Vec<String>) -> (r: Result<Gitignore, CompileError>)
    requires
        is_absolute(root@),
    ensures
        r matches Err(CompileError::InvalidPattern(n)) ==> first_rejected_line(
            lines.deep_view(),
            n as int,
        ),
        all_lines_accepted(lines.deep_view()) ==> !(r matches Err(CompileError::InvalidPattern(_))),
        r is Ok ==> all_lines_accepted(lines.deep_view()),
        r matches Err(CompileError::Build) ==> all_lines_accepted(lines.deep_view())
            && set_rejected(globs_of(lines.deep_view())),
        all_lines_accepted(lines.deep_view()) && !set_rejected(globs_of(lines.deep_view()))
            ==> r is Ok,
        r is Ok ==> matcher_globs(r->Ok_0) == globs_of(lines.deep_view()),
        r is Ok ==> matcher_root(r->Ok_0) == root@,
{
    let ghost ls = lines.deep_view();
    let mut b = new_builder(root);
    let mut i: usize = 0;
    while i < lines.len()
        invariant
            ls == lines.deep_view(),
            i <= lines.len(),
            builder_root(b) == root@,
            builder_globs(b) == globs_of(ls.subrange(0, i as int)),
            forall|j: int| 0 <= j < i ==> !line_rejected(#[trigger] ls[j]),
        decreases lines.len() - i,
    {
        assert(ls.subrange(0, i + 1).drop_last() =~= ls.subrange(0, i as int));
        match add_line(&mut b, lines[i].as_str()) {
            Ok(()) => {},
            Err(_) => {
                assert(lines[i as int]@ == ls[i as int]);
                assert(line_rejected(ls[i as int]));
                return Err(CompileError::InvalidPattern(i + 1));
            },
        }
        i = i + 1;
    }
    assert(ls.subrange(0, i as int) =~= ls);
    match build(&b) {
        Ok(g) => Ok(g),
        Err(_) => Err(CompileError::Build),
    }
}

} // verus!
