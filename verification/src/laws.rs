//! The behavioural laws of the builtins, proved over their transitions.

use vstd::prelude::*;
use crate::errors::ErrKind;
use crate::fsmodel::{NodeV, node_of, is_dir_at, parent_ready, fs_wf, rename_map};
use crate::paths::{valid_path, is_prefix};
use crate::builtins::{mkdir_t, rm_t, cp_t, mv_t, cat_t, resolved_dest};

verus! {

/// Creating a fresh directory under an existing parent succeeds and
/// leaves a directory there; creating the same path again reports that
/// it already exists and changes nothing.
pub proof fn lemma_mkdir_fresh_then_exists(m: Map<Seq<Seq<char>>, NodeV>, d: Seq<Seq<char>>)
    requires
        fs_wf(m),
        valid_path(d),
        node_of(m, d) is None,
        parent_ready(m, d),
    ensures
        mkdir_t(m, d).1 is Ok,
        is_dir_at(mkdir_t(m, d).0, d),
        mkdir_t(mkdir_t(m, d).0, d).1 == Err::<(), ErrKind>(ErrKind::AlreadyExists),
        mkdir_t(mkdir_t(m, d).0, d).0 == mkdir_t(m, d).0,
{
}

/// Copying a file puts exactly its content at the resolved destination
/// and then its permission bits, so reading the destination afterwards
/// yields the copied content.
pub proof fn lemma_cp_reads_back(
    m: Map<Seq<Seq<char>>, NodeV>,
    src: Seq<Seq<char>>,
    dest: Seq<Seq<char>>,
    c: Seq<u8>,
    mo: u32,
)
    requires
        fs_wf(m),
        node_of(m, src) == Some(NodeV::File { content: c, mode: mo }),
        !(node_of(m, resolved_dest(m, src, dest)) matches Some(NodeV::Dir { .. })),
        !(node_of(m, resolved_dest(m, src, dest)) matches Some(NodeV::Other)),
        parent_ready(m, resolved_dest(m, src, dest)),
    ensures
        cp_t(m, src, dest).1 is Ok,
        cat_t(cp_t(m, src, dest).0, resolved_dest(m, src, dest)) == Ok::<Seq<u8>, ErrKind>(c),
        node_of(cp_t(m, src, dest).0, resolved_dest(m, src, dest)) == Some(
            NodeV::File { content: c, mode: mo },
        ),
        node_of(cp_t(m, src, dest).0, src) == node_of(m, src),
{
    let d = resolved_dest(m, src, dest);
    assert(d.len() > 0);
    if d == src {
    }
}

/// Moving a file to a different resolved destination succeeds, removes
/// the source, and leaves the file's content and permission bits at the
/// destination.
pub proof fn lemma_mv_file(
    m: Map<Seq<Seq<char>>, NodeV>,
    src: Seq<Seq<char>>,
    dest: Seq<Seq<char>>,
    c: Seq<u8>,
    mo: u32,
)
    requires
        fs_wf(m),
        node_of(m, src) == Some(NodeV::File { content: c, mode: mo }),
        resolved_dest(m, src, dest) != src,
        !(node_of(m, resolved_dest(m, src, dest)) matches Some(NodeV::Dir { .. })),
        parent_ready(m, resolved_dest(m, src, dest)),
    ensures
        mv_t(m, src, dest).1 is Ok,
        node_of(mv_t(m, src, dest).0, src) is None,
        node_of(mv_t(m, src, dest).0, resolved_dest(m, src, dest)) == Some(
            NodeV::File { content: c, mode: mo },
        ),
{
    let d = resolved_dest(m, src, dest);
    assert(src.len() > 0);
    assert(d.len() > 0);
    assert(!is_prefix(src, d)) by {
        if is_prefix(src, d) {
            assert(d.len() > src.len()) by {
                if d.len() == src.len() {
                    assert(d.take(src.len() as int) =~= d);
                }
            }
            assert(m.contains_key(d.take(src.len() as int)));
            assert(d.take(src.len() as int) == src);
            // A destination strictly below the file `src` would make `src`
            // a directory.
            if m.contains_key(d) {
                assert(m[d.take(src.len() as int)] is Dir);
                assert(m[src] is Dir);
            } else {
                if d.len() == src.len() + 1 {
                    assert(d.drop_last() =~= d.take(src.len() as int));
                    assert(is_dir_at(m, d.drop_last()));
                    assert(m[src] is Dir);
                } else {
                    let par = d.drop_last();
                    assert(par == d.take(d.len() - 1));
                    assert(is_dir_at(m, par));
                    assert(par.len() > 0);
                    assert(m.contains_key(par));
                    assert(par.take(src.len() as int) =~= d.take(src.len() as int));
                    assert(m[par.take(src.len() as int)] is Dir);
                    assert(m[src] is Dir);
                }
            }
        }
    }
    let m1 = if m.contains_key(d) {
        m.remove(d)
    } else {
        m
    };
    let res = rename_map(m1, src, d);
    assert(mv_t(m, src, dest).0 == res && mv_t(m, src, dest).1 is Ok);
    assert(m1.contains_key(src));
    assert(!is_prefix(d, src)) by {
        if is_prefix(d, src) {
            if src.len() == d.len() {
                assert(src.take(d.len() as int) =~= src);
            }
            assert(src.len() > d.len());
            assert(m.contains_key(src.take(d.len() as int)));
            assert(src.take(d.len() as int) == d);
            assert(m[d] is Dir);
        }
    }
    assert(!res.contains_key(src)) by {
        assert(is_prefix(src, src)) by {
            assert(src.take(src.len() as int) =~= src);
        }
    }
    assert(res.contains_key(d) && res[d] == NodeV::File { content: c, mode: mo }) by {
        assert(is_prefix(d, d)) by {
            assert(d.take(d.len() as int) =~= d);
        }
        assert(d.skip(d.len() as int) =~= Seq::<Seq<char>>::empty());
        assert(src + d.skip(d.len() as int) =~= src);
        assert(m1.contains_key(src + d.skip(d.len() as int)));
        assert(!m1.contains_key(d));
        assert(res[d] == m1[src]);
    }
}

/// Moving a path onto its own resolved destination is a successful
/// no-op.
pub proof fn lemma_mv_same_path(m: Map<Seq<Seq<char>>, NodeV>, src: Seq<Seq<char>>, dest: Seq<
    Seq<char>,
>)
    requires
        node_of(m, src) is Some,
        src.len() > 0,
        resolved_dest(m, src, dest) == src,
    ensures
        mv_t(m, src, dest) == (m, Ok::<(), ErrKind>(())),
{
}

/// Removing a directory without the recursive flag fails and leaves the
/// filesystem unchanged; with the flag it removes the directory and all
/// its descendants and keeps everything else exactly as it was.
pub proof fn lemma_rm_directory(m: Map<Seq<Seq<char>>, NodeV>, p: Seq<Seq<char>>)
    requires
        fs_wf(m),
        node_of(m, p) matches Some(NodeV::Dir { .. }),
    ensures
        rm_t(m, p, false) == (m, Err::<(), ErrKind>(ErrKind::IsADirectory)),
        rm_t(m, p, true).1 is Ok,
        forall|k: Seq<Seq<char>>| is_prefix(p, k) ==> !(#[trigger] rm_t(m, p, true).0.contains_key(
            k,
        )),
        p.len() > 0 ==> node_of(rm_t(m, p, true).0, p) is None,
        forall|k: Seq<Seq<char>>| #[trigger] rm_t(m, p, true).0.contains_key(k) <==> (
        m.contains_key(k) && !is_prefix(p, k)),
        forall|k: Seq<Seq<char>>| #[trigger] rm_t(m, p, true).0.contains_key(k) ==> rm_t(
            m,
            p,
            true,
        ).0[k] == m[k],
{
    assert(is_prefix(p, p)) by {
        assert(p.take(p.len() as int) =~= p);
    }
}

} // verus!
