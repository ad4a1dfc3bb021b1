//! Canonical component paths for the filesystem model.
//!
//! A stored path is a sequence of component names relative to the model
//! root.  A path string is resolved lexically: empty and `.` segments
//! vanish, `..` pops the previous component (staying put at the root),
//! and every other slash-separated segment descends.

use vstd::prelude::*;
use vstd::string::*;
use crate::split::{split_tokens, split_exec, views_of, is_sep, lemma_split_tokens_wf};
use crate::strutil::str_eq;

verus! {

/// A valid stored path component: non-empty, slash-free, and not one of
/// the two special segments.
pub open spec fn valid_name(n: Seq<char>) -> bool {
    n.len() > 0 && !n.contains('/') && n != seq!['.'] && n != seq!['.', '.']
}

/// Every component of the path is a valid name.
pub open spec fn valid_path(p: Seq<Seq<char>>) -> bool {
    forall|i: int| 0 <= i < p.len() ==> valid_name(#[trigger] p[i])
}

/// One lexical resolution step.
pub open spec fn resolve_step(acc: Seq<Seq<char>>, seg: Seq<char>) -> Seq<Seq<char>> {
    if seg == seq!['.'] {
        acc
    } else if seg == seq!['.', '.'] {
        if acc.len() == 0 {
            acc
        } else {
            acc.drop_last()
        }
    } else {
        acc.push(seg)
    }
}

/// Folds the resolution steps over the remaining segments.
pub open spec fn resolve_segs(acc: Seq<Seq<char>>, segs: Seq<Seq<char>>) -> Seq<Seq<char>>
    decreases segs.len(),
{
    if segs.len() == 0 {
        acc
    } else {
        resolve_segs(resolve_step(acc, segs[0]), segs.drop_first())
    }
}

/// The canonical component path denoted by the string `s`.
pub open spec fn path_of(s: Seq<char>) -> Seq<Seq<char>> {
    resolve_segs(Seq::empty(), split_tokens(true, s))
}

proof fn lemma_resolve_valid(acc: Seq<Seq<char>>, segs: Seq<Seq<char>>)
    requires
        valid_path(acc),
        forall|i: int| 0 <= i < segs.len() ==> (#[trigger] segs[i]).len() > 0,
        forall|i: int, j: int|
            0 <= i < segs.len() && 0 <= j < segs[i].len() ==> (#[trigger] segs[i][j]) != '/',
    ensures
        valid_path(resolve_segs(acc, segs)),
    decreases segs.len(),
{
    if segs.len() > 0 {
        let seg = segs[0];
        let acc1 = resolve_step(acc, seg);
        assert(valid_path(acc1)) by {
            if seg != seq!['.'] && seg != seq!['.', '.'] {
                assert(valid_name(seg)) by {
                    assert(forall|j: int| 0 <= j < seg.len() ==> seg[j] != '/');
                    if seg.contains('/') {
                        let j = choose|j: int| 0 <= j < seg.len() && seg[j] == '/';
                        assert(seg[j] != '/');
                    }
                }
                assert(forall|i: int|
                    0 <= i < acc.len() ==> valid_name(#[trigger] acc.push(seg)[i]));
            } else if seg == seq!['.', '.'] && acc.len() > 0 {
                assert(forall|i: int|
                    0 <= i < acc.drop_last().len() ==> valid_name(#[trigger] acc.drop_last()[i]));
            }
        }
        assert forall|i: int| 0 <= i < segs.drop_first().len() implies (#[trigger] segs.drop_first()[i]).len()
            > 0 by {
            assert(segs.drop_first()[i] == segs[i + 1]);
        }
        assert forall|i: int, j: int|
            0 <= i < segs.drop_first().len() && 0 <= j < segs.drop_first()[i].len() implies (
        #[trigger] segs.drop_first()[i][j]) != '/' by {
            assert(segs.drop_first()[i] == segs[i + 1]);
        }
        lemma_resolve_valid(acc1, segs.drop_first());
    }
}

/// Every resolved path is valid.
pub proof fn lemma_path_of_valid(s: Seq<char>)
    ensures
        valid_path(path_of(s)),
{
    lemma_split_tokens_wf(true, s);
    let segs = split_tokens(true, s);
    assert forall|i: int, j: int|
        0 <= i < segs.len() && 0 <= j < segs[i].len() implies (#[trigger] segs[i][j]) != '/' by {
        assert(!is_sep(true, segs[i][j]));
    }
    lemma_resolve_valid(Seq::empty(), segs);
}

/// Resolves a path string into its canonical component path.
pub fn parse_path(s: &str) -> (p: Vec<String>)
    ensures
        views_of(p@) == path_of(s@),
        valid_path(views_of(p@)),
{
    let segs = split_exec(s, true);
    let mut acc: Vec<String> = Vec::new();
    let mut i: usize = 0;
    proof {
        assert(views_of(segs@).skip(0) =~= views_of(segs@));
        assert(views_of(acc@) =~= Seq::<Seq<char>>::empty());
    }
    while i < segs.len()
        invariant
            i <= segs.len(),
            path_of(s@) == resolve_segs(views_of(acc@), views_of(segs@).skip(i as int)),
        decreases segs.len() - i,
    {
        let ghost pre = views_of(acc@);
        let ghost segs_v = views_of(segs@);
        let seg = &segs[i];
        if str_eq(seg.as_str(), ".") {
            proof {
                reveal_strlit(".");
            }
        } else if str_eq(seg.as_str(), "..") {
            proof {
                reveal_strlit("..");
            }
            if acc.len() > 0 {
                acc.pop();
                proof {
                    assert(views_of(acc@) =~= pre.drop_last());
                }
            }
        } else {
            proof {
                reveal_strlit(".");
                reveal_strlit("..");
                assert(seg@ != seq!['.'] && seg@ != seq!['.', '.']) by {
                    assert("."@ =~= seq!['.']);
                    assert(".."@ =~= seq!['.', '.']);
                }
            }
            acc.push(seg.clone());
            proof {
                assert(views_of(acc@) =~= pre.push(seg@));
            }
        }
        proof {
            reveal_strlit(".");
            reveal_strlit("..");
            assert("."@ =~= seq!['.']);
            assert(".."@ =~= seq!['.', '.']);
            assert(segs_v.skip(i as int)[0] == seg@);
            assert(segs_v.skip(i as int).drop_first() =~= segs_v.skip(i as int + 1));
            assert(views_of(acc@) == resolve_step(pre, seg@));
        }
        i += 1;
    }
    proof {
        lemma_path_of_valid(s@);
    }
    acc
}

/// Whether `p` is a (not necessarily proper) prefix of `k`.
pub open spec fn is_prefix(p: Seq<Seq<char>>, k: Seq<Seq<char>>) -> bool {
    p.len() <= k.len() && k.take(p.len() as int) == p
}

/// Component-for-component equality of two paths.
pub fn path_eq(a: &Vec<String>, b: &Vec<String>) -> (r: bool)
    ensures
        r == (views_of(a@) == views_of(b@)),
{
    if a.len() != b.len() {
        proof {
            assert(views_of(a@).len() != views_of(b@).len());
        }
        return false;
    }
    let mut i: usize = 0;
    while i < a.len()
        invariant
            i <= a.len(),
            a.len() == b.len(),
            forall|j: int| 0 <= j < i ==> views_of(a@)[j] == views_of(b@)[j],
        decreases a.len() - i,
    {
        if !(a[i] == b[i]) {
            proof {
                assert(views_of(a@)[i as int] != views_of(b@)[i as int]);
            }
            return false;
        }
        i += 1;
    }
    proof {
        assert(views_of(a@) =~= views_of(b@));
    }
    true
}

/// Whether the path named by `p` is a prefix of the path named by `k`.
pub fn path_has_prefix(k: &Vec<String>, p: &Vec<String>) -> (r: bool)
    ensures
        r == is_prefix(views_of(p@), views_of(k@)),
{
    if p.len() > k.len() {
        return false;
    }
    let mut i: usize = 0;
    while i < p.len()
        invariant
            i <= p.len(),
            p.len() <= k.len(),
            forall|j: int| 0 <= j < i ==> views_of(k@)[j] == views_of(p@)[j],
        decreases p.len() - i,
    {
        if !(k[i] == p[i]) {
            proof {
                assert(views_of(k@).take(views_of(p@).len() as int)[i as int] != views_of(
                    p@,
                )[i as int]);
            }
            return false;
        }
        i += 1;
    }
    proof {
        assert(views_of(k@).take(views_of(p@).len() as int) =~= views_of(p@));
    }
    true
}

/// `dst` followed by the components of `path` after the first
/// `skip_n`.
pub fn rebase_path(path: &Vec<String>, skip_n: usize, dst: &Vec<String>) -> (r: Vec<String>)
    requires
        skip_n <= path@.len(),
    ensures
        views_of(r@) == views_of(dst@) + views_of(path@).skip(skip_n as int),
{
    let mut r = path_clone(dst);
    let mut i: usize = skip_n;
    while i < path.len()
        invariant
            skip_n <= i <= path@.len(),
            views_of(r@) =~= views_of(dst@) + views_of(path@).subrange(skip_n as int, i as int),
        decreases path@.len() - i,
    {
        r.push(path[i].clone());
        proof {
            assert(views_of(r@) =~= (views_of(dst@) + views_of(path@).subrange(
                skip_n as int,
                i as int,
            )).push(views_of(path@)[i as int]));
            assert((views_of(dst@) + views_of(path@).subrange(skip_n as int, i as int)).push(
                views_of(path@)[i as int],
            ) =~= views_of(dst@) + views_of(path@).subrange(skip_n as int, i as int + 1));
        }
        i += 1;
    }
    proof {
        assert(views_of(path@).subrange(skip_n as int, path@.len() as int) =~= views_of(
            path@,
        ).skip(skip_n as int));
    }
    r
}

/// An owned copy of a component path.
pub fn path_clone(p: &Vec<String>) -> (r: Vec<String>)
    ensures
        views_of(r@) == views_of(p@),
{
    let mut r: Vec<String> = Vec::new();
    let mut i: usize = 0;
    while i < p.len()
        invariant
            i <= p.len(),
            views_of(r@) =~= views_of(p@).take(i as int),
        decreases p.len() - i,
    {
        r.push(p[i].clone());
        proof {
            assert(views_of(r@) =~= views_of(p@).take(i as int).push(views_of(p@)[i as int]));
            assert(views_of(p@).take(i as int).push(views_of(p@)[i as int]) =~= views_of(p@).take(
                i as int + 1,
            ));
        }
        i += 1;
    }
    proof {
        assert(views_of(p@).take(p@.len() as int) =~= views_of(p@));
    }
    r
}

} // verus!
