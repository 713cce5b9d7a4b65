//! Paths as sequences of components.
//!
//! A path is text with `/` as separator. Its components are the pieces between
//! separators, where empty pieces (repeated or trailing separators) and `.`
//! pieces are dropped, as `std::path::Path::components` does for the interior of
//! a path. A path is absolute when it starts with `/`.
use vstd::prelude::*;
use vstd::string::*;

verus! {

/// Whether a piece between separators stays as a component.
pub open spec fn keeps_piece(piece: Seq<char>) -> bool {
    piece.len() > 0 && piece != seq!['.']
}

/// `done` with `piece` appended, where it stays as a component.
pub open spec fn push_piece(done: Seq<Seq<char>>, piece: Seq<char>) -> Seq<Seq<char>> {
    if keeps_piece(piece) {
        done.push(piece)
    } else {
        done
    }
}

/// Reads `p` left to right: the components closed so far and the open piece.
pub open spec fn scan(p: Seq<char>) -> (Seq<Seq<char>>, Seq<char>)
    decreases p.len(),
{
    if p.len() == 0 {
        (seq![], seq![])
    } else {
        let (done, piece) = scan(p.drop_last());
        if p.last() == '/' {
            (push_piece(done, piece), seq![])
        } else {
            (done, piece.push(p.last()))
        }
    }
}

/// The components of `p`, in order.
pub open spec fn components(p: Seq<char>) -> Seq<Seq<char>> {
    push_piece(scan(p).0, scan(p).1)
}

/// Whether `p` starts at the file system root.
pub open spec fn is_absolute(p: Seq<char>) -> bool {
    p.len() > 0 && p[0] == '/'
}

/// A component as `components` yields it: not empty, not `.`, without `/`.
pub open spec fn is_component(c: Seq<char>) -> bool {
    keeps_piece(c) && !c.contains('/')
}

/// Components written back as text, separated by `/`.
pub open spec fn joined(cs: Seq<Seq<char>>) -> Seq<char>
    decreases cs.len(),
{
    if cs.len() == 0 {
        seq![]
    } else if cs.len() == 1 {
        cs[0]
    } else {
        joined(cs.drop_last()) + seq!['/'] + cs.last()
    }
}

/// `p` taken from the directory whose components are `base`: an absolute `p`
/// stands for itself, a relative one is appended to `base`.
pub open spec fn resolved(base: Seq<Seq<char>>, p: Seq<char>) -> Seq<Seq<char>> {
    if is_absolute(p) {
        components(p)
    } else {
        base + components(p)
    }
}

/// What is left of `path` below `prefix`, when `prefix` leads it.
pub open spec fn strip_components(path: Seq<Seq<char>>, prefix: Seq<Seq<char>>) -> Option<
    Seq<Seq<char>>,
> {
    if prefix.len() <= path.len() && path.subrange(0, prefix.len() as int) == prefix {
        Some(path.skip(prefix.len() as int))
    } else {
        None
    }
}

proof fn lemma_scan_piece(x: Seq<char>, b: Seq<char>)
    requires
        !b.contains('/'),
    ensures
        scan(x + b) == (scan(x).0, scan(x).1 + b),
    decreases b.len(),
{
    if b.len() == 0 {
        assert(x + b =~= x);
        assert(scan(x).1 + b =~= scan(x).1);
    } else {
        let b0 = b.drop_last();
        assert(!b0.contains('/')) by {
            if b0.contains('/') {
                let k = choose|k: int| 0 <= k < b0.len() && b0[k] == '/';
                assert(b[k] == '/');
            }
        }
        lemma_scan_piece(x, b0);
        assert((x + b).drop_last() =~= x + b0);
        assert((x + b).last() == b.last());
        assert(b.last() != '/') by {
            assert(b[b.len() - 1] == b.last());
        }
        assert((scan(x).1 + b0).push(b.last()) =~= scan(x).1 + b);
    }
}

/// Splitting the text of components separated by `/` gives them back.
pub proof fn lemma_components_joined(cs: Seq<Seq<char>>)
    requires
        forall|i: int| 0 <= i < cs.len() ==> is_component(#[trigger] cs[i]),
    ensures
        components(joined(cs)) == cs,
    decreases cs.len(),
{
    if cs.len() == 0 {
        assert(components(joined(cs)) =~= cs);
    } else if cs.len() == 1 {
        lemma_scan_piece(seq![], cs[0]);
        assert(seq![] + cs[0] =~= cs[0]);
        assert(is_component(cs[0]));
        assert(components(joined(cs)) =~= cs);
    } else {
        let front = cs.drop_last();
        assert forall|i: int| 0 <= i < front.len() implies is_component(#[trigger] front[i]) by {
            assert(front[i] == cs[i]);
        }
        lemma_components_joined(front);
        let head = joined(front) + seq!['/'];
        assert(head.drop_last() =~= joined(front));
        assert(scan(head) == (components(joined(front)), Seq::<char>::empty()));
        assert(is_component(cs[cs.len() - 1]));
        lemma_scan_piece(head, cs.last());
        assert(seq![] + cs.last() =~= cs.last());
        assert(joined(cs) == head + cs.last());
        assert(components(joined(cs)) =~= front.push(cs.last()));
        assert(front.push(cs.last()) =~= cs);
    }
}

/// The components of `p`.
pub fn components_of(p: &str) -> (r: Vec<String>)
    ensures
        r.deep_view() == components(p@),
        forall|i: int| 0 <= i < r.deep_view().len() ==> is_component(#[trigger] r.deep_view()[i]),
{
    let n = p.unicode_len();
    let mut done: Vec<String> = Vec::new();
    let mut start: usize = 0;
    let mut i: usize = 0;
    while i < n
        invariant
            n == p@.len(),
            start <= i <= n,
            scan(p@.subrange(0, i as int)) == (done.deep_view(), p@.subrange(
                start as int,
                i as int,
            )),
            !p@.subrange(start as int, i as int).contains('/'),
            forall|k: int|
                0 <= k < done.deep_view().len() ==> is_component(#[trigger] done.deep_view()[k]),
        decreases n - i,
    {
        let c = p.get_char(i);
        let ghost before = p@.subrange(0, i as int);
        let ghost piece = p@.subrange(start as int, i as int);
        assert(p@.subrange(0, i + 1).drop_last() =~= before);
        if c == '/' {
            let seg = p.substring_char(start, i);
            let keep = i - start > 1 || (i - start == 1 && seg.get_char(0) != '.');
            if keep {
                proof {
                    if seg@ == seq!['.'] {
                        assert(seg@[0] == '.');
                    }
                }
                let ghost prev = done.deep_view();
                done.push(seg.to_owned());
                assert(done.deep_view() =~= prev.push(piece));
                assert(is_component(piece));
            } else {
                assert(piece.len() == 1 ==> piece =~= seq!['.']);
            }
            proof {
                assert(p@.subrange(i + 1, i + 1) =~= Seq::<char>::empty());
            }
            start = i + 1;
        } else {
            assert(p@.subrange(start as int, i + 1) =~= piece.push(c));
            assert(!piece.push(c).contains('/')) by {
                if piece.push(c).contains('/') {
                    let k = choose|k: int| 0 <= k < piece.push(c).len() && piece.push(c)[k] == '/';
                    if k < piece.len() {
                        assert(piece[k] == '/');
                    }
                }
            }
        }
        i = i + 1;
    }
    assert(p@.subrange(0, n as int) =~= p@);
    assert(i == n);
    let seg = p.substring_char(start, n);
    assert(seg@ == p@.subrange(start as int, i as int));
    let keep = n - start > 1 || (n - start == 1 && seg.get_char(0) != '.');
    if keep {
        proof {
            if seg@ == seq!['.'] {
                assert(seg@[0] == '.');
            }
        }
        let ghost prev = done.deep_view();
        done.push(seg.to_owned());
        assert(done.deep_view() =~= prev.push(seg@));
        assert(is_component(seg@));
    } else {
        assert(seg@.len() == 1 ==> seg@ =~= seq!['.']);
    }
    assert(done.deep_view() =~= components(p@));
    done
}

/// Components written back as one text, separated by `/`.
pub fn join_components(cs: &Vec<String>) -> (r: String)
    ensures
        r@ == joined(cs.deep_view()),
{
    let mut r = String::new();
    let mut i: usize = 0;
    while i < cs.len()
        invariant
            i <= cs.len(),
            r@ == joined(cs.deep_view().subrange(0, i as int)),
        decreases cs.len() - i,
    {
        let ghost prev = cs.deep_view().subrange(0, i as int);
        let ghost next = cs.deep_view().subrange(0, i + 1);
        assert(next.drop_last() =~= prev);
        if i > 0 {
            r.append("/");
            proof {
                reveal_strlit("/");
            }
        } else {
            assert(prev.len() == 0);
        }
        r.append(cs[i].as_str());
        i = i + 1;
    }
    assert(cs.deep_view().subrange(0, cs.len() as int) =~= cs.deep_view());
    r
}

/// The components of `path` after the leading `skip` ones.
fn components_after(path: &Vec<String>, skip: usize) -> (r: Vec<String>)
    requires
        skip <= path.len(),
    ensures
        r.deep_view() == path.deep_view().skip(skip as int),
{
    let mut r: Vec<String> = Vec::new();
    let mut i: usize = skip;
    while i < path.len()
        invariant
            skip <= i <= path.len(),
            r.deep_view() == path.deep_view().subrange(skip as int, i as int),
            r@.len() == i - skip,
        decreases path.len() - i,
    {
        let ghost prev = r@;
        assert(prev.len() == i - skip);
        let c = path[i].clone();
        assert(c@ == path.deep_view()[i as int]);
        r.push(c);
        assert(r@ == prev.push(c));
        assert(r@.len() == i + 1 - skip);
        assert(r.deep_view().len() == i + 1 - skip);
        assert forall|k: int| 0 <= k < r.deep_view().len() implies r.deep_view()[k]
            == path.deep_view().subrange(skip as int, i + 1)[k] by {
            if k < r.deep_view().len() - 1 {
                assert(r@[k] == prev[k]);
            }
        }
        assert(r.deep_view() =~= path.deep_view().subrange(skip as int, i + 1));
        i = i + 1;
    }
    assert(path.deep_view().subrange(skip as int, path.len() as int) =~= path.deep_view().skip(
        skip as int,
    ));
    r
}

/// What is left of `path` below `prefix`, when `prefix` leads it.
pub fn strip_components_of(path: &Vec<String>, prefix: &Vec<String>) -> (r: Option<Vec<String>>)
    ensures
        match r {
            Some(rest) => strip_components(path.deep_view(), prefix.deep_view()) == Some(
                rest.deep_view(),
            ),
            None => strip_components(path.deep_view(), prefix.deep_view()) is None,
        },
{
    if prefix.len() > path.len() {
        return None;
    }
    let mut i: usize = 0;
    while i < prefix.len()
        invariant
            prefix.len() <= path.len(),
            i <= prefix.len(),
            forall|k: int| 0 <= k < i ==> path.deep_view()[k] == prefix.deep_view()[k],
        decreases prefix.len() - i,
    {
        if path[i] != prefix[i] {
            assert(path.deep_view().subrange(0, prefix.len() as int)[i as int]
                != prefix.deep_view()[i as int]);
            return None;
        }
        i = i + 1;
    }
    assert(path.deep_view().subrange(0, prefix.len() as int) =~= prefix.deep_view());
    Some(components_after(path, prefix.len()))
}

/// The components of `base` followed by those of `p`.
pub fn concat_components(base: &Vec<String>, p: &Vec<String>) -> (r: Vec<String>)
    ensures
        r.deep_view() == base.deep_view() + p.deep_view(),
{
    let mut r: Vec<String> = Vec::new();
    let mut i: usize = 0;
    while i < base.len()
        invariant
            i <= base.len(),
            r.deep_view() == base.deep_view().subrange(0, i as int),
            r@.len() == i,
        decreases base.len() - i,
    {
        let ghost prev = r@;
        let c = base[i].clone();
        assert(c@ == base.deep_view()[i as int]);
        r.push(c);
        assert(r@ == prev.push(c));
        assert forall|k: int| 0 <= k < r@.len() - 1 implies r@[k] == prev[k] by {}
        assert(r.deep_view() =~= base.deep_view().subrange(0, i + 1));
        i = i + 1;
    }
    let mut j: usize = 0;
    while j < p.len()
        invariant
            i == base.len(),
            j <= p.len(),
            r.deep_view() == base.deep_view() + p.deep_view().subrange(0, j as int),
            r@.len() == i + j,
        decreases p.len() - j,
    {
        let ghost prev = r@;
        let ghost prev_dv = r.deep_view();
        let c = p[j].clone();
        assert(c@ == p.deep_view()[j as int]);
        r.push(c);
        assert(r@ == prev.push(c));
        assert forall|k: int| 0 <= k < r@.len() - 1 implies r@[k] == prev[k] by {}
        assert(base.deep_view().len() == i);
        assert forall|k: int| 0 <= k < r.deep_view().len() implies r.deep_view()[k] == (
        base.deep_view() + p.deep_view().subrange(0, j + 1))[k] by {
            if k < r@.len() - 1 {
                assert(r.deep_view()[k] == prev[k].deep_view());
                assert(prev_dv[k] == prev[k].deep_view());
                if k < i {
                    assert(prev_dv[k] == base.deep_view()[k]);
                } else {
                    assert(prev_dv[k] == p.deep_view()[k - i]);
                }
            }
        }
        assert(r.deep_view() =~= base.deep_view() + p.deep_view().subrange(0, j + 1));
        j = j + 1;
    }
    assert(base.deep_view().subrange(0, i as int) =~= base.deep_view());
    assert(p.deep_view().subrange(0, j as int) =~= p.deep_view());
    r
}

proof fn lemma_scan_wf(p: Seq<char>)
    ensures
        forall|i: int| 0 <= i < scan(p).0.len() ==> is_component(#[trigger] scan(p).0[i]),
        !scan(p).1.contains('/'),
    decreases p.len(),
{
    if p.len() > 0 {
        let q = p.drop_last();
        lemma_scan_wf(q);
        let (done, piece) = scan(q);
        if p.last() == '/' {
            assert forall|i: int| 0 <= i < scan(p).0.len() implies is_component(
                #[trigger] scan(p).0[i],
            ) by {
                if i < done.len() {
                    assert(scan(p).0[i] == done[i]);
                }
            }
            assert(!scan(p).1.contains('/')) by {
                assert(scan(p).1 =~= Seq::<char>::empty());
            }
        } else {
            assert(scan(p).0 == done);
            assert(!piece.push(p.last()).contains('/')) by {
                if piece.push(p.last()).contains('/') {
                    let k = choose|k: int|
                        0 <= k < piece.push(p.last()).len() && piece.push(p.last())[k] == '/';
                    if k < piece.len() {
                        assert(piece[k] == '/');
                    }
                }
            }
        }
    }
}

/// Every component of a path is a component: not empty, not `.`, without `/`.
pub proof fn lemma_components_wf(p: Seq<char>)
    ensures
        forall|i: int| 0 <= i < components(p).len() ==> is_component(#[trigger] components(p)[i]),
{
    lemma_scan_wf(p);
    let (done, piece) = scan(p);
    assert forall|i: int| 0 <= i < components(p).len() implies is_component(
        #[trigger] components(p)[i],
    ) by {
        if i < done.len() {
            assert(components(p)[i] == done[i]);
        }
    }
}

/// Text ending in a separator reads as its components with nothing open.
proof fn lemma_scan_separator(x: Seq<char>)
    ensures
        scan(x.push('/')) == (components(x), Seq::<char>::empty()),
{
    assert(x.push('/').drop_last() =~= x);
}

/// Components joined with `/` after a path and a separator extend the path's
/// components by exactly them.
pub proof fn lemma_components_join_onto(x: Seq<char>, cs: Seq<Seq<char>>)
    requires
        cs.len() > 0,
        forall|i: int| 0 <= i < cs.len() ==> is_component(#[trigger] cs[i]),
    ensures
        components(x + seq!['/'] + joined(cs)) == components(x) + cs,
    decreases cs.len(),
{
    let last = cs.last();
    assert(is_component(cs[cs.len() - 1]));
    if cs.len() == 1 {
        lemma_scan_separator(x);
        assert(x + seq!['/'] =~= x.push('/'));
        lemma_scan_piece(x.push('/'), last);
        assert(seq![] + last =~= last);
        assert(components(x + seq!['/'] + joined(cs)) =~= components(x).push(last));
        assert(components(x).push(last) =~= components(x) + cs);
    } else {
        let front = cs.drop_last();
        assert forall|i: int| 0 <= i < front.len() implies is_component(#[trigger] front[i]) by {
            assert(front[i] == cs[i]);
        }
        lemma_components_join_onto(x, front);
        let y = x + seq!['/'] + joined(front);
        lemma_scan_separator(y);
        lemma_scan_piece(y.push('/'), last);
        assert(seq![] + last =~= last);
        assert(x + seq!['/'] + joined(cs) =~= y.push('/') + last);
        assert(components(x + seq!['/'] + joined(cs)) =~= components(y).push(last));
        assert((components(x) + front).push(last) =~= components(x) + cs);
    }
}

} // verus!
