//! The file-management builtins on the filesystem model.
//!
//! Each builtin has a spec-level transition describing exactly how it
//! maps the current filesystem and its operands to the next filesystem
//! and a result, and an executable counterpart proved equal to it.

use vstd::prelude::*;
use vstd::string::*;
use crate::errors::ErrKind;
use crate::fsmodel::{
    FsModel, Node, NodeV, NodeKind, node_of, is_dir_at, parent_ready, drop_subtree, rename_map,
    MODEL_DIR_MODE,
};
use crate::paths::{valid_path, is_prefix, path_clone};
use crate::split::views_of;

verus! {

/// The destination path an operand pair resolves to: into an existing
/// directory under the source's base name, otherwise the literal path.
pub open spec fn resolved_dest(
    m: Map<Seq<Seq<char>>, NodeV>,
    src: Seq<Seq<char>>,
    dest: Seq<Seq<char>>,
) -> Seq<Seq<char>> {
    if is_dir_at(m, dest) {
        dest.push(src.last())
    } else {
        dest
    }
}

/// What `mkdir` does with one operand: fail on anything that already
/// exists or on a missing parent, else create the directory.
pub open spec fn mkdir_t(m: Map<Seq<Seq<char>>, NodeV>, p: Seq<Seq<char>>) -> (Map<
    Seq<Seq<char>>,
    NodeV,
>, Result<(), ErrKind>) {
    if node_of(m, p) is Some {
        (m, Err(ErrKind::AlreadyExists))
    } else if !parent_ready(m, p) {
        (m, Err(ErrKind::ParentMissing))
    } else {
        (m.insert(p, NodeV::Dir { mode: MODEL_DIR_MODE }), Ok(()))
    }
}

/// Creates one directory, as `mkdir` treats one operand.
pub fn mkdir_model(fs: &mut FsModel, p: &Vec<String>) -> (r: Result<(), ErrKind>)
    requires
        old(fs).inv(),
        valid_path(views_of(p@)),
    ensures
        final(fs).inv(),
        (final(fs)@, r) == mkdir_t(old(fs)@, views_of(p@)),
{
    let ghost pv = views_of(p@);
    match fs.kind_of(p) {
        NodeKind::Missing => {
            let mut parent = path_clone(p);
            parent.pop();
            proof {
                assert(views_of(parent@) =~= pv.drop_last());
            }
            match fs.kind_of(&parent) {
                NodeKind::Directory => {
                    let np = path_clone(p);
                    fs.insert_node(np, Node::Dir { mode: MODEL_DIR_MODE });
                    Ok(())
                },
                _ => Err(ErrKind::ParentMissing),
            }
        },
        _ => Err(ErrKind::AlreadyExists),
    }
}

/// What `rm` does with one operand: remove a file unconditionally, a
/// directory only with the recursive flag (then with everything in it),
/// and refuse anything else.
pub open spec fn rm_t(m: Map<Seq<Seq<char>>, NodeV>, p: Seq<Seq<char>>, recursive: bool) -> (Map<
    Seq<Seq<char>>,
    NodeV,
>, Result<(), ErrKind>) {
    match node_of(m, p) {
        Option::None => (m, Err(ErrKind::NotFound)),
        Option::Some(NodeV::File { .. }) => (m.remove(p), Ok(())),
        Option::Some(NodeV::Dir { .. }) => if recursive {
            (drop_subtree(m, p), Ok(()))
        } else {
            (m, Err(ErrKind::IsADirectory))
        },
        Option::Some(NodeV::Other) => (m, Err(ErrKind::NotRegular)),
    }
}

/// Removes one operand, as `rm` treats it.
pub fn rm_model(fs: &mut FsModel, p: &Vec<String>, recursive: bool) -> (r: Result<(), ErrKind>)
    requires
        old(fs).inv(),
    ensures
        final(fs).inv(),
        (final(fs)@, r) == rm_t(old(fs)@, views_of(p@), recursive),
{
    match fs.kind_of(p) {
        NodeKind::Missing => Err(ErrKind::NotFound),
        NodeKind::RegularFile => {
            fs.remove_node(p);
            Ok(())
        },
        NodeKind::Directory => {
            if recursive {
                fs.remove_subtree(p);
                Ok(())
            } else {
                Err(ErrKind::IsADirectory)
            }
        },
        NodeKind::Special => Err(ErrKind::NotRegular),
    }
}

/// The view of an executable byte-vector result.
pub open spec fn bytes_result_view(r: Result<Vec<u8>, ErrKind>) -> Result<Seq<u8>, ErrKind> {
    match r {
        Ok(c) => Ok(c@),
        Err(e) => Err(e),
    }
}

/// What `cat` yields for one operand: the file's content, or why not.
pub open spec fn cat_t(m: Map<Seq<Seq<char>>, NodeV>, p: Seq<Seq<char>>) -> Result<
    Seq<u8>,
    ErrKind,
> {
    match node_of(m, p) {
        Option::None => Err(ErrKind::NotFound),
        Option::Some(NodeV::File { content, .. }) => Ok(content),
        Option::Some(_) => Err(ErrKind::IsADirectory),
    }
}

/// Reads one operand, as `cat` treats it.
pub fn cat_model(fs: &FsModel, p: &Vec<String>) -> (r: Result<Vec<u8>, ErrKind>)
    requires
        fs.inv(),
    ensures
        bytes_result_view(r) == cat_t(fs@, views_of(p@)),
{
    match fs.kind_of(p) {
        NodeKind::Missing => Err(ErrKind::NotFound),
        NodeKind::RegularFile => {
            match fs.read_file(p) {
                Option::Some(c) => Ok(c),
                Option::None => Err(ErrKind::NotFound),
            }
        },
        _ => Err(ErrKind::IsADirectory),
    }
}

/// What `cp` does: the source must be a regular file; the destination
/// resolves into an existing directory under the source's base name;
/// the copy reproduces the content and then the permission bits.
pub open spec fn cp_t(
    m: Map<Seq<Seq<char>>, NodeV>,
    src: Seq<Seq<char>>,
    dest: Seq<Seq<char>>,
) -> (Map<Seq<Seq<char>>, NodeV>, Result<(), ErrKind>) {
    match node_of(m, src) {
        Option::None => (m, Err(ErrKind::NotFound)),
        Option::Some(NodeV::Dir { .. }) => (m, Err(ErrKind::IsADirectory)),
        Option::Some(NodeV::Other) => (m, Err(ErrKind::NotRegular)),
        Option::Some(NodeV::File { content, mode }) => {
            let d = resolved_dest(m, src, dest);
            if node_of(m, d) matches Some(NodeV::Dir { .. }) {
                (m, Err(ErrKind::IsADirectory))
            } else if node_of(m, d) matches Some(NodeV::Other) {
                (m, Err(ErrKind::NotRegular))
            } else if !parent_ready(m, d) {
                (m, Err(ErrKind::ParentMissing))
            } else {
                (m.insert(d, NodeV::File { content, mode }), Ok(()))
            }
        },
    }
}

/// Copies one file, as `cp` treats its two operands.
pub fn cp_model(fs: &mut FsModel, src: &Vec<String>, dest: &Vec<String>) -> (r: Result<
    (),
    ErrKind,
>)
    requires
        old(fs).inv(),
        valid_path(views_of(src@)),
        valid_path(views_of(dest@)),
    ensures
        final(fs).inv(),
        (final(fs)@, r) == cp_t(old(fs)@, views_of(src@), views_of(dest@)),
{
    let ghost srcv = views_of(src@);
    let ghost destv = views_of(dest@);
    match fs.kind_of(src) {
        NodeKind::Missing => Err(ErrKind::NotFound),
        NodeKind::Directory => Err(ErrKind::IsADirectory),
        NodeKind::Special => Err(ErrKind::NotRegular),
        NodeKind::RegularFile => {
            let content = match fs.read_file(src) {
                Option::Some(c) => c,
                Option::None => {
                    return Err(ErrKind::NotFound);
                },
            };
            let mode = match fs.mode_of(src) {
                Option::Some(mo) => mo,
                Option::None => {
                    return Err(ErrKind::NotFound);
                },
            };
            let d = if fs.kind_of(dest) == NodeKind::Directory {
                let mut d = path_clone(dest);
                d.push(src[src.len() - 1].clone());
                proof {
                    assert(views_of(d@) =~= destv.push(srcv.last()));
                }
                d
            } else {
                path_clone(dest)
            };
            let ghost dv = views_of(d@);
            proof {
                assert(dv == resolved_dest(old(fs)@, srcv, destv));
                assert(valid_path(dv)) by {
                    if is_dir_at(old(fs)@, destv) {
                        assert forall|i: int| 0 <= i < dv.len() implies crate::paths::valid_name(
                            #[trigger] dv[i],
                        ) by {
                            if i < destv.len() {
                                assert(dv[i] == destv[i]);
                            } else {
                                assert(dv[i] == srcv.last());
                            }
                        }
                    }
                }
            }
            match fs.kind_of(&d) {
                NodeKind::Directory => Err(ErrKind::IsADirectory),
                NodeKind::Special => Err(ErrKind::NotRegular),
                NodeKind::RegularFile => {
                    proof {
                        assert(dv.len() > 0);
                        assert(parent_ready(fs@, dv)) by {
                            if dv.len() > 1 {
                                assert(fs@.contains_key(dv));
                                assert(fs@.contains_key(dv.take(dv.len() - 1)) && fs@[dv.take(
                                    dv.len() - 1,
                                )] is Dir);
                                assert(dv.drop_last() == dv.take(dv.len() - 1));
                            }
                        }
                    }
                    fs.remove_node(&d);
                    proof {
                        assert(parent_ready(fs@, dv)) by {
                            if dv.len() > 1 {
                                assert(dv.drop_last() == dv.take(dv.len() - 1));
                                assert(dv.drop_last().len() < dv.len());
                            }
                        }
                    }
                    fs.insert_node(d, Node::File { content, mode });
                    proof {
                        assert(fs@ =~= old(fs)@.insert(
                            dv,
                            NodeV::File { content: content@, mode },
                        ));
                    }
                    Ok(())
                },
                NodeKind::Missing => {
                    let mut parent = path_clone(&d);
                    parent.pop();
                    proof {
                        assert(views_of(parent@) =~= dv.drop_last());
                    }
                    match fs.kind_of(&parent) {
                        NodeKind::Directory => {
                            fs.insert_node(d, Node::File { content, mode });
                            Ok(())
                        },
                        _ => Err(ErrKind::ParentMissing),
                    }
                },
            }
        },
    }
}

/// What the copy-then-delete fallback of `mv` does with an already
/// resolved destination: only a regular file may cross devices; its
/// content and permission bits are copied and the original removed.
pub open spec fn copy_remove_t(
    m: Map<Seq<Seq<char>>, NodeV>,
    src: Seq<Seq<char>>,
    d: Seq<Seq<char>>,
) -> (Map<Seq<Seq<char>>, NodeV>, Result<(), ErrKind>) {
    match node_of(m, src) {
        Option::Some(NodeV::File { content, mode }) => {
            if node_of(m, d) matches Some(NodeV::Dir { .. }) {
                (m, Err(ErrKind::IsADirectory))
            } else if node_of(m, d) matches Some(NodeV::Other) {
                (m, Err(ErrKind::NotRegular))
            } else if !parent_ready(m, d) {
                (m, Err(ErrKind::ParentMissing))
            } else {
                (m.insert(d, NodeV::File { content, mode }).remove(src), Ok(()))
            }
        },
        Option::Some(NodeV::Dir { .. }) => (m, Err(ErrKind::UnsupportedDirMove)),
        _ => (m, Err(ErrKind::NotRegular)),
    }
}

/// Copies a file to the resolved destination and removes the original,
/// as the cross-device fallback of `mv` does.
pub fn copy_remove_model(fs: &mut FsModel, src: &Vec<String>, d: &Vec<String>) -> (r: Result<
    (),
    ErrKind,
>)
    requires
        old(fs).inv(),
        valid_path(views_of(src@)),
        valid_path(views_of(d@)),
    ensures
        final(fs).inv(),
        (final(fs)@, r) == copy_remove_t(old(fs)@, views_of(src@), views_of(d@)),
{
    let ghost srcv = views_of(src@);
    let ghost dv = views_of(d@);
    match fs.kind_of(src) {
        NodeKind::Directory => Err(ErrKind::UnsupportedDirMove),
        NodeKind::Missing => Err(ErrKind::NotRegular),
        NodeKind::Special => Err(ErrKind::NotRegular),
        NodeKind::RegularFile => {
            let content = match fs.read_file(src) {
                Option::Some(c) => c,
                Option::None => {
                    return Err(ErrKind::NotRegular);
                },
            };
            let mode = match fs.mode_of(src) {
                Option::Some(mo) => mo,
                Option::None => {
                    return Err(ErrKind::NotRegular);
                },
            };
            match fs.kind_of(d) {
                NodeKind::Directory => Err(ErrKind::IsADirectory),
                NodeKind::Special => Err(ErrKind::NotRegular),
                NodeKind::RegularFile => {
                    proof {
                        assert(parent_ready(fs@, dv)) by {
                            if dv.len() > 1 {
                                assert(fs@.contains_key(dv));
                                assert(fs@.contains_key(dv.take(dv.len() - 1)) && fs@[dv.take(
                                    dv.len() - 1,
                                )] is Dir);
                                assert(dv.drop_last() == dv.take(dv.len() - 1));
                            }
                        }
                    }
                    fs.remove_node(d);
                    proof {
                        assert(parent_ready(fs@, dv)) by {
                            assert(dv.drop_last() == dv.take(dv.len() - 1));
                        }
                    }
                    fs.insert_node(path_clone(d), Node::File { content, mode });
                    let ghost mid = old(fs)@.insert(dv, NodeV::File { content: content@, mode });
                    proof {
                        assert(fs@ =~= mid);
                    }
                    fs.remove_node(src);
                    proof {
                        assert(fs@ == mid.remove(srcv));
                    }
                    Ok(())
                },
                NodeKind::Missing => {
                    let mut parent = path_clone(d);
                    parent.pop();
                    proof {
                        assert(views_of(parent@) =~= dv.drop_last());
                    }
                    match fs.kind_of(&parent) {
                        NodeKind::Directory => {
                            fs.insert_node(path_clone(d), Node::File { content, mode });
                            fs.remove_node(src);
                            Ok(())
                        },
                        _ => Err(ErrKind::ParentMissing),
                    }
                },
            }
        },
    }
}

/// What `mv` does: resolve the destination as `cp` does, succeed as a
/// no-op when source and resolved destination coincide, and otherwise
/// relocate the whole subtree by one atomic rename, overwriting a
/// non-directory destination.
pub open spec fn mv_t(
    m: Map<Seq<Seq<char>>, NodeV>,
    src: Seq<Seq<char>>,
    dest: Seq<Seq<char>>,
) -> (Map<Seq<Seq<char>>, NodeV>, Result<(), ErrKind>) {
    if node_of(m, src) is None {
        (m, Err(ErrKind::NotFound))
    } else if src.len() == 0 {
        (m, Err(ErrKind::InvalidName))
    } else {
        let d = resolved_dest(m, src, dest);
        if d == src {
            (m, Ok(()))
        } else if is_prefix(src, d) {
            (m, Err(ErrKind::IntoItself))
        } else if node_of(m, d) matches Some(NodeV::Dir { .. }) {
            (m, Err(ErrKind::IsADirectory))
        } else if !parent_ready(m, d) {
            (m, Err(ErrKind::ParentMissing))
        } else {
            let m1 = if m.contains_key(d) {
                m.remove(d)
            } else {
                m
            };
            (rename_map(m1, src, d), Ok(()))
        }
    }
}

/// Moves one operand pair, as `mv` treats it within one device.
pub fn mv_model(fs: &mut FsModel, src: &Vec<String>, dest: &Vec<String>) -> (r: Result<
    (),
    ErrKind,
>)
    requires
        old(fs).inv(),
        valid_path(views_of(src@)),
        valid_path(views_of(dest@)),
    ensures
        final(fs).inv(),
        (final(fs)@, r) == mv_t(old(fs)@, views_of(src@), views_of(dest@)),
{
    let ghost srcv = views_of(src@);
    let ghost destv = views_of(dest@);
    if fs.kind_of(src) == NodeKind::Missing {
        return Err(ErrKind::NotFound);
    }
    if src.len() == 0 {
        return Err(ErrKind::InvalidName);
    }
    let d = if fs.kind_of(dest) == NodeKind::Directory {
        let mut d = path_clone(dest);
        d.push(src[src.len() - 1].clone());
        proof {
            assert(views_of(d@) =~= destv.push(srcv.last()));
        }
        d
    } else {
        path_clone(dest)
    };
    let ghost dv = views_of(d@);
    proof {
        assert(dv == resolved_dest(old(fs)@, srcv, destv));
        assert(valid_path(dv)) by {
            if is_dir_at(old(fs)@, destv) {
                assert forall|i: int| 0 <= i < dv.len() implies crate::paths::valid_name(
                    #[trigger] dv[i],
                ) by {
                    if i < destv.len() {
                        assert(dv[i] == destv[i]);
                    } else {
                        assert(dv[i] == srcv.last());
                    }
                }
            }
        }
    }
    if crate::paths::path_eq(src, &d) {
        return Ok(());
    }
    if crate::paths::path_has_prefix(&d, src) {
        return Err(ErrKind::IntoItself);
    }
    match fs.kind_of(&d) {
        NodeKind::Directory => Err(ErrKind::IsADirectory),
        NodeKind::RegularFile | NodeKind::Special => {
            proof {
                assert(dv.len() > 0);
                assert(parent_ready(fs@, dv)) by {
                    if dv.len() > 1 {
                        assert(fs@.contains_key(dv));
                        assert(fs@.contains_key(dv.take(dv.len() - 1)) && fs@[dv.take(
                            dv.len() - 1,
                        )] is Dir);
                        assert(dv.drop_last() == dv.take(dv.len() - 1));
                    }
                }
            }
            fs.remove_node(&d);
            proof {
                assert(parent_ready(fs@, dv)) by {
                    assert(dv.drop_last() == dv.take(dv.len() - 1));
                }
                assert forall|k: Seq<Seq<char>>| #[trigger] fs@.contains_key(k) implies !is_prefix(
                    dv,
                    k,
                ) by {
                    if is_prefix(dv, k) && k != dv {
                        assert(k.len() >= dv.len());
                        if k.len() == dv.len() {
                            assert(k.take(dv.len() as int) =~= k);
                        }
                        assert(k.len() > dv.len());
                        assert(k.take(dv.len() as int) == dv);
                        assert(fs@.contains_key(k.take(dv.len() as int)) && fs@[k.take(
                            dv.len() as int,
                        )] is Dir);
                    }
                }
                assert(fs@.contains_key(srcv));
            }
            fs.rename_tree(src, &d);
            proof {
                assert((fs@, Ok::<(), ErrKind>(())) == mv_t(old(fs)@, srcv, destv));
            }
            Ok(())
        },
        NodeKind::Missing => {
            let mut parent = path_clone(&d);
            parent.pop();
            proof {
                assert(views_of(parent@) =~= dv.drop_last());
            }
            match fs.kind_of(&parent) {
                NodeKind::Directory => {
                    proof {
                        assert forall|k: Seq<Seq<char>>| #[trigger]
                            fs@.contains_key(k) implies !is_prefix(dv, k) by {
                            if is_prefix(dv, k) && k != dv {
                                assert(k.len() >= dv.len());
                                if k.len() == dv.len() {
                                    assert(k.take(dv.len() as int) =~= k);
                                }
                                assert(k.len() > dv.len());
                                assert(k.take(dv.len() as int) == dv);
                                assert(fs@.contains_key(k.take(dv.len() as int)));
                            }
                        }
                        assert(fs@.contains_key(srcv));
                    }
                    fs.rename_tree(src, &d);
                    Ok(())
                },
                _ => Err(ErrKind::ParentMissing),
            }
        },
    }
}

/// The arguments of `echo` joined by single spaces.
pub open spec fn joined(args: Seq<Seq<char>>) -> Seq<char>
    decreases args.len(),
{
    if args.len() == 0 {
        Seq::empty()
    } else if args.len() == 1 {
        args[0]
    } else {
        joined(args.drop_last()) + seq![' '] + args.last()
    }
}

/// Joins the arguments with single spaces, as `echo` prints them.
pub fn echo_line(args: &Vec<String>) -> (r: String)
    ensures
        r@ == joined(views_of(args@)),
{
    let ghost av = views_of(args@);
    let mut r = String::new();
    let mut i: usize = 0;
    proof {
        assert(av.take(0) =~= Seq::<Seq<char>>::empty());
    }
    while i < args.len()
        invariant
            i <= args@.len(),
            av == views_of(args@),
            r@ == joined(av.take(i as int)),
        decreases args@.len() - i,
    {
        if i > 0 {
            r.append(" ");
            proof {
                reveal_strlit(" ");
                assert(" "@ =~= seq![' ']);
            }
        }
        r.append(args[i].as_str());
        proof {
            assert(av.take(i + 1).drop_last() =~= av.take(i as int));
            assert(av.take(i + 1).last() == av[i as int]);
            if i == 0 {
                assert(r@ =~= joined(av.take(1)));
            }
        }
        i += 1;
    }
    proof {
        assert(av.take(av.len() as int) =~= av);
    }
    r
}

/// The target directory `cd` resolves its arguments to: the home
/// directory for no argument or `~`, a home-relative expansion for a
/// `~/` prefix, and the argument itself otherwise.
pub open spec fn cd_target_t(args: Seq<Seq<char>>, home: Option<Seq<char>>) -> Result<
    Seq<char>,
    ErrKind,
> {
    if args.len() == 0 || args[0] == seq!['~'] {
        match home {
            Option::Some(h) => Ok(h),
            Option::None => Err(ErrKind::HomeNotSet),
        }
    } else if args[0].len() >= 2 && args[0][0] == '~' && args[0][1] == '/' {
        match home {
            Option::Some(h) => Ok(h + seq!['/'] + args[0].skip(2)),
            Option::None => Err(ErrKind::HomeNotSet),
        }
    } else {
        Ok(args[0])
    }
}

/// The view of an executable string result.
pub open spec fn string_result_view(r: Result<String, ErrKind>) -> Result<Seq<char>, ErrKind> {
    match r {
        Ok(s) => Ok(s@),
        Err(e) => Err(e),
    }
}

/// The view of an optional borrowed string.
pub open spec fn opt_str_view(h: Option<&String>) -> Option<Seq<char>> {
    match h {
        Option::Some(s) => Option::Some(s@),
        Option::None => Option::None,
    }
}

/// Resolves the `cd` target directory from the arguments and the home
/// directory, with the `~` and `~/` expansions.
pub fn cd_target(args: &Vec<String>, home: Option<&String>) -> (r: Result<String, ErrKind>)
    ensures
        string_result_view(r) == cd_target_t(views_of(args@), opt_str_view(home)),
{
    let ghost av = views_of(args@);
    if args.len() == 0 || crate::strutil::str_eq(args[0].as_str(), "~") {
        proof {
            reveal_strlit("~");
            assert("~"@ =~= seq!['~']);
        }
        match home {
            Option::Some(h) => Ok(h.clone()),
            Option::None => Err(ErrKind::HomeNotSet),
        }
    } else {
        let a0 = &args[0];
        let n = a0.as_str().unicode_len();
        if n >= 2 && a0.as_str().get_char(0) == '~' && a0.as_str().get_char(1) == '/' {
            match home {
                Option::Some(h) => {
                    let mut t = h.clone();
                    t.append("/");
                    let rest = a0.as_str().substring_char(2, n);
                    t.append(rest);
                    proof {
                        reveal_strlit("/");
                        assert("/"@ =~= seq!['/']);
                        assert(rest@ =~= a0@.skip(2));
                        assert(t@ =~= h@ + seq!['/'] + av[0].skip(2));
                    }
                    Ok(t)
                },
                Option::None => Err(ErrKind::HomeNotSet),
            }
        } else {
            proof {
                reveal_strlit("~");
                assert("~"@ =~= seq!['~']);
            }
            Ok(a0.clone())
        }
    }
}

} // verus!
