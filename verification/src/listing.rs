//! Directory-listing logic: flag parsing, hidden-entry filtering,
//! name sorting, classifier suffixes, and long-format rendering.

use vstd::prelude::*;
use vstd::string::*;
use crate::strutil::{str_lt, lemma_str_lt_connected, dec_chars, u64_to_string, pad_left, padded_left};
use crate::modefmt::{mode_chars, format_mode, format_time, time_chars};
use crate::split::views_of;

verus! {

/// The flags `ls` understands.
#[derive(Clone, Copy, Debug, PartialEq, Eq, Structural)]
pub struct LsFlags {
    /// `-a`: include entries whose name starts with a dot.
    pub show_all: bool,
    /// `-l`: one detailed metadata line per entry.
    pub long_format: bool,
    /// `-F`: append `/` to directories and `*` to executables.
    pub classify: bool,
}

/// Folds one argument's flag characters (after the dash) into the flag
/// triple, failing on the first unknown character.
pub open spec fn ls_flag_chars(cs: Seq<char>, f: LsFlags) -> Result<LsFlags, char>
    decreases cs.len(),
{
    if cs.len() == 0 {
        Ok(f)
    } else if cs[0] == 'a' {
        ls_flag_chars(cs.drop_first(), LsFlags { show_all: true, ..f })
    } else if cs[0] == 'l' {
        ls_flag_chars(cs.drop_first(), LsFlags { long_format: true, ..f })
    } else if cs[0] == 'F' {
        ls_flag_chars(cs.drop_first(), LsFlags { classify: true, ..f })
    } else {
        Err(cs[0])
    }
}

/// Folds the argument list into the flag set and the optional path
/// operand (the last one given wins), as `ls` parses its arguments.
pub open spec fn ls_args_t(args: Seq<Seq<char>>, f: LsFlags, path: Option<Seq<char>>) -> Result<
    (LsFlags, Option<Seq<char>>),
    char,
>
    decreases args.len(),
{
    if args.len() == 0 {
        Ok((f, path))
    } else if args[0].len() > 0 && args[0][0] == '-' {
        match ls_flag_chars(args[0].skip(1), f) {
            Ok(f2) => ls_args_t(args.drop_first(), f2, path),
            Err(c) => Err(c),
        }
    } else {
        ls_args_t(args.drop_first(), f, Some(args[0]))
    }
}

/// The view of a parsed argument result.
pub open spec fn ls_parse_view(r: Result<(LsFlags, Option<String>), char>) -> Result<
    (LsFlags, Option<Seq<char>>),
    char,
> {
    match r {
        Ok((f, Option::Some(p))) => Ok((f, Option::Some(p@))),
        Ok((f, Option::None)) => Ok((f, Option::None)),
        Err(c) => Err(c),
    }
}

/// Parses the arguments of `ls` into its flag set and optional path
/// operand, failing on the first unknown flag character.
pub fn parse_ls_args(args: &Vec<String>) -> (r: Result<(LsFlags, Option<String>), char>)
    ensures
        ls_parse_view(r) == ls_args_t(
            views_of(args@),
            LsFlags { show_all: false, long_format: false, classify: false },
            Option::None,
        ),
{
    let ghost av = views_of(args@);
    let mut f = LsFlags { show_all: false, long_format: false, classify: false };
    let mut path: Option<String> = None;
    let mut i: usize = 0;
    proof {
        assert(av.skip(0) =~= av);
    }
    while i < args.len()
        invariant
            i <= args@.len(),
            av == views_of(args@),
            ls_args_t(av, LsFlags { show_all: false, long_format: false, classify: false }, Option::None)
                == ls_args_t(
                av.skip(i as int),
                f,
                match path {
                    Option::Some(p) => Option::Some(p@),
                    Option::None => Option::None::<Seq<char>>,
                },
            ),
        decreases args@.len() - i,
    {
        let a = &args[i];
        let n = a.as_str().unicode_len();
        let ghost head = av.skip(i as int);
        proof {
            assert(head[0] == a@);
            assert(head.drop_first() =~= av.skip(i as int + 1));
        }
        if n > 0 && a.as_str().get_char(0) == '-' {
            let mut j: usize = 1;
            proof {
                assert(a@.skip(1).skip(0) =~= a@.skip(1));
            }
            while j < n
                invariant
                    1 <= j <= n,
                    n == a@.len(),
                    a@[0] == '-',
                    av == views_of(args@),
                    ls_args_t(av, LsFlags { show_all: false, long_format: false, classify: false }, Option::None)
                        == (match ls_flag_chars(
                        a@.skip(j as int),
                        f,
                    ) {
                        Ok(f2) => ls_args_t(
                            av.skip(i as int + 1),
                            f2,
                            match path {
                                Option::Some(p) => Option::Some(p@),
                                Option::None => Option::None::<Seq<char>>,
                            },
                        ),
                        Err(c) => Err(c),
                    }),
                decreases n - j,
            {
                let c = a.as_str().get_char(j);
                proof {
                    assert(a@.skip(j as int)[0] == a@[j as int]);
                    assert(a@.skip(j as int).drop_first() =~= a@.skip(j as int + 1));
                }
                if c == 'a' {
                    f = LsFlags { show_all: true, ..f };
                } else if c == 'l' {
                    f = LsFlags { long_format: true, ..f };
                } else if c == 'F' {
                    f = LsFlags { classify: true, ..f };
                } else {
                    proof {
                        assert(a@.skip(j as int).len() > 0);
                        assert(ls_flag_chars(a@.skip(j as int), f) == Err::<LsFlags, char>(c));
                    }
                    return Err(c);
                }
                j += 1;
            }
            proof {
                assert(a@.skip(n as int).len() == 0);
            }
        } else {
            path = Some(a.clone());
        }
        i += 1;
    }
    proof {
        assert(av.skip(av.len() as int).len() == 0);
    }
    match path {
        Option::Some(p) => Ok((f, Some(p))),
        Option::None => Ok((f, None)),
    }
}

/// Whether a name is hidden: it starts with a dot.
pub open spec fn hidden(n: Seq<char>) -> bool {
    n.len() > 0 && n[0] == '.'
}

/// Whether a name appears in a listing under the given visibility flag.
pub open spec fn listed(n: Seq<char>, show_all: bool) -> bool {
    show_all || !hidden(n)
}

/// Strictly ascending in lexicographic order (hence duplicate-free).
pub open spec fn sorted_strict(s: Seq<Seq<char>>) -> bool {
    forall|i: int, j: int| 0 <= i < j < s.len() ==> str_lt(#[trigger] s[i], #[trigger] s[j])
}

/// Sorts pairwise-distinct names lexicographically.
pub fn sort_names(names: Vec<String>) -> (r: Vec<String>)
    requires
        forall|i: int, j: int|
            0 <= i < j < names@.len() ==> views_of(names@)[i] != views_of(names@)[j],
    ensures
        sorted_strict(views_of(r@)),
        forall|n: Seq<char>| #[trigger] views_of(r@).contains(n) == views_of(names@).contains(n),
{
    let ghost inv_v = views_of(names@);
    let mut out: Vec<String> = Vec::new();
    let mut i: usize = 0;
    while i < names.len()
        invariant
            i <= names@.len(),
            inv_v == views_of(names@),
            forall|x: int, y: int| 0 <= x < y < inv_v.len() ==> inv_v[x] != inv_v[y],
            sorted_strict(views_of(out@)),
            forall|n: Seq<char>| #[trigger]
                views_of(out@).contains(n) == inv_v.take(i as int).contains(n),
        decreases names@.len() - i,
    {
        let name = names[i].clone();
        let ghost nv = inv_v[i as int];
        let ghost out0 = views_of(out@);
        proof {
            assert(name@ == nv);
            if out0.contains(nv) {
                assert(inv_v.take(i as int).contains(nv));
                let x = choose|x: int| 0 <= x < i && #[trigger] inv_v.take(i as int)[x] == nv;
                assert(inv_v[x] == inv_v[i as int]);
                assert(false);
            }
        }
        let mut j: usize = 0;
        while j < out.len() && !crate::strutil::str_lt_exec(name.as_str(), out[j].as_str())
            invariant
                j <= out@.len(),
                out0 == views_of(out@),
                name@ == nv,
                !out0.contains(nv),
                sorted_strict(out0),
                forall|m: int| 0 <= m < j ==> str_lt(#[trigger] out0[m], nv),
            decreases out@.len() - j,
        {
            proof {
                if out0[j as int] == nv {
                    assert(out0.contains(nv));
                }
                lemma_str_lt_connected(out0[j as int], nv);
            }
            j += 1;
        }
        let ghost pos = j as int;
        proof {
            if pos < out0.len() {
                assert(str_lt(nv, out0[pos]));
            }
        }
        out.insert(j, name);
        proof {
            assert(views_of(out@) =~= out0.insert(pos, nv));
            out0.insert_ensures(pos, nv);
            assert forall|x: int, y: int|
                0 <= x < y < views_of(out@).len() implies str_lt(
                #[trigger] views_of(out@)[x],
                #[trigger] views_of(out@)[y],
            ) by {
                let s = views_of(out@);
                if y < pos {
                    assert(s[x] == out0[x] && s[y] == out0[y]);
                } else if y == pos {
                    assert(s[x] == out0[x]);
                    assert(s[y] == nv);
                } else {
                    assert(s[y] == out0[y - 1]);
                    if x < pos {
                        assert(s[x] == out0[x]);
                        if x < pos && pos <= y - 1 {
                            if pos == y - 1 {
                                assert(str_lt(nv, out0[pos]));
                                assert(str_lt(out0[x], nv));
                                crate::strutil::lemma_str_lt_trans(out0[x], nv, out0[y - 1]);
                            } else {
                                assert(str_lt(out0[x], out0[y - 1]));
                            }
                        }
                    } else if x == pos {
                        assert(s[x] == nv);
                        assert(str_lt(nv, out0[pos]));
                        if pos < y - 1 {
                            crate::strutil::lemma_str_lt_trans(nv, out0[pos], out0[y - 1]);
                        }
                    } else {
                        assert(s[x] == out0[x - 1]);
                        assert(str_lt(out0[x - 1], out0[y - 1]));
                    }
                }
            }
            assert forall|n: Seq<char>| #[trigger]
                views_of(out@).contains(n) == inv_v.take(i + 1).contains(n) by {
                let s = views_of(out@);
                if s.contains(n) {
                    let x = choose|x: int| 0 <= x < s.len() && #[trigger] s[x] == n;
                    if x < pos {
                        assert(out0[x] == n);
                        assert(out0.contains(n));
                        assert(inv_v.take(i as int).contains(n));
                        let w = choose|w: int| 0 <= w < i && #[trigger] inv_v.take(i as int)[w] == n;
                        assert(inv_v.take(i + 1)[w] == n);
                        assert(inv_v.take(i + 1).contains(n));
                    } else if x == pos {
                        assert(n == nv);
                        assert(inv_v.take(i + 1)[i as int] == nv);
                        assert(inv_v.take(i + 1).contains(n));
                    } else {
                        assert(out0[x - 1] == n);
                        assert(out0.contains(n));
                        assert(inv_v.take(i as int).contains(n));
                        let w = choose|w: int| 0 <= w < i && #[trigger] inv_v.take(i as int)[w] == n;
                        assert(inv_v.take(i + 1)[w] == n);
                        assert(inv_v.take(i + 1).contains(n));
                    }
                }
                if inv_v.take(i + 1).contains(n) {
                    let w = choose|w: int| 0 <= w < i + 1 && #[trigger] inv_v.take(i + 1)[w] == n;
                    if w < i {
                        assert(inv_v.take(i as int)[w] == n);
                        assert(inv_v.take(i as int).contains(n));
                        assert(out0.contains(n));
                        let x = choose|x: int| 0 <= x < out0.len() && #[trigger] out0[x] == n;
                        if x < pos {
                            assert(s[x] == n);
                        } else {
                            assert(s[x + 1] == n);
                        }
                        assert(s.contains(n));
                    } else {
                        assert(n == nv);
                        assert(s[pos] == nv);
                        assert(s.contains(n));
                    }
                }
            }
        }
        i += 1;
    }
    proof {
        assert(inv_v.take(inv_v.len() as int) =~= inv_v);
    }
    out
}

/// Keeps the names a listing shows (all of them with `show_all`, the
/// unhidden ones without) and sorts them.
pub fn ls_select(names: Vec<String>, show_all: bool) -> (r: Vec<String>)
    requires
        forall|i: int, j: int|
            0 <= i < j < names@.len() ==> views_of(names@)[i] != views_of(names@)[j],
    ensures
        sorted_strict(views_of(r@)),
        forall|n: Seq<char>| #[trigger]
            views_of(r@).contains(n) == (views_of(names@).contains(n) && listed(n, show_all)),
{
    let ghost inv_v = views_of(names@);
    let mut keep: Vec<String> = Vec::new();
    let mut i: usize = 0;
    while i < names.len()
        invariant
            i <= names@.len(),
            inv_v == views_of(names@),
            forall|x: int, y: int| 0 <= x < y < inv_v.len() ==> inv_v[x] != inv_v[y],
            forall|x: int, y: int|
                0 <= x < y < keep@.len() ==> views_of(keep@)[x] != views_of(keep@)[y],
            forall|n: Seq<char>| #[trigger]
                views_of(keep@).contains(n) == (inv_v.take(i as int).contains(n) && listed(
                    n,
                    show_all,
                )),
        decreases names@.len() - i,
    {
        let a = &names[i];
        let ghost nv = inv_v[i as int];
        let ghost k0 = views_of(keep@);
        let n = a.as_str().unicode_len();
        let visible = show_all || n == 0 || a.as_str().get_char(0) != '.';
        proof {
            assert(visible == listed(nv, show_all));
            if k0.contains(nv) {
                assert(inv_v.take(i as int).contains(nv));
                let x = choose|x: int| 0 <= x < i && #[trigger] inv_v.take(i as int)[x] == nv;
                assert(inv_v[x] == inv_v[i as int]);
            }
        }
        if visible {
            keep.push(a.clone());
            proof {
                assert(views_of(keep@) =~= k0.push(nv));
            }
        }
        proof {
            let k1 = views_of(keep@);
            assert forall|x: int, y: int|
                0 <= x < y < k1.len() implies k1[x] != k1[y] by {
                if visible && y == k1.len() - 1 {
                    assert(k1[x] == k0[x]);
                    assert(k1[y] == nv);
                    if k0[x] == nv {
                        assert(k0.contains(nv));
                    }
                }
            }
            assert forall|n2: Seq<char>| #[trigger]
                k1.contains(n2) == (inv_v.take(i + 1).contains(n2) && listed(n2, show_all)) by {
                if k1.contains(n2) {
                    let x = choose|x: int| 0 <= x < k1.len() && #[trigger] k1[x] == n2;
                    if visible && x == k1.len() - 1 {
                        assert(n2 == nv);
                        assert(inv_v.take(i + 1)[i as int] == nv);
                        assert(inv_v.take(i + 1).contains(n2));
                    } else {
                        assert(k0[x] == n2);
                        assert(k0.contains(n2));
                        let w = choose|w: int| 0 <= w < i && #[trigger] inv_v.take(i as int)[w] == n2;
                        assert(inv_v.take(i + 1)[w] == n2);
                        assert(inv_v.take(i + 1).contains(n2));
                    }
                }
                if inv_v.take(i + 1).contains(n2) && listed(n2, show_all) {
                    let w = choose|w: int| 0 <= w < i + 1 && #[trigger] inv_v.take(i + 1)[w] == n2;
                    if w < i {
                        assert(inv_v.take(i as int)[w] == n2);
                        assert(inv_v.take(i as int).contains(n2));
                        assert(k0.contains(n2));
                        let x = choose|x: int| 0 <= x < k0.len() && #[trigger] k0[x] == n2;
                        assert(k1[x] == n2);
                        assert(k1.contains(n2));
                    } else {
                        assert(n2 == nv);
                        assert(visible);
                        assert(k1[k1.len() - 1] == nv);
                        assert(k1.contains(n2));
                    }
                }
            }
        }
        i += 1;
    }
    proof {
        assert(inv_v.take(inv_v.len() as int) =~= inv_v);
    }
    sort_names(keep)
}

/// The metadata snapshot a long-format line shows.
#[derive(Clone, Copy, Debug, PartialEq, Eq, Structural)]
pub struct EntryMeta {
    pub mode: u32,
    pub nlink: u64,
    pub uid: u32,
    pub gid: u32,
    pub size: u64,
    pub mtime: i64,
}

/// The display name with the classifier suffix: `/` after directories,
/// `*` after executables, nothing otherwise.
pub open spec fn classified_chars(name: Seq<char>, is_dir: bool, mode: u32) -> Seq<char> {
    if is_dir {
        name + seq!['/']
    } else if mode & 0o111 != 0 {
        name + seq!['*']
    } else {
        name
    }
}

/// Appends the classifier suffix to a display name.
pub fn classified_name(name: String, is_dir: bool, mode: u32) -> (r: String)
    ensures
        r@ == classified_chars(name@, is_dir, mode),
{
    let ghost nv = name@;
    let mut r = name;
    if is_dir {
        r.append("/");
    } else if crate::modefmt::is_executable(mode) {
        r.append("*");
    }
    proof {
        reveal_strlit("/");
        reveal_strlit("*");
        assert("/"@ =~= seq!['/']);
        assert("*"@ =~= seq!['*']);
        assert(r@ =~= classified_chars(nv, is_dir, mode));
    }
    r
}

/// The long-format line of one entry: permission string, link count,
/// owner and group ids, size, time, and the classified name.
pub open spec fn long_line_chars(name: Seq<char>, is_dir: bool, m: EntryMeta) -> Seq<char> {
    mode_chars(m.mode) + seq![' '] + padded_left(dec_chars(m.nlink), 3) + seq![' '] + dec_chars(
        m.uid as u64,
    ) + seq![':'] + dec_chars(m.gid as u64) + seq![' '] + padded_left(dec_chars(m.size), 8) + seq![
        ' ',
    ] + time_chars(m.mtime) + seq![' '] + classified_chars(name, is_dir, m.mode)
}

/// Renders the long-format line of one entry.
pub fn long_line(name: String, is_dir: bool, m: EntryMeta) -> (r: String)
    ensures
        r@ == long_line_chars(name@, is_dir, m),
{
    let ghost namev = name@;
    let mut r = format_mode(m.mode);
    r.append(" ");
    let links = pad_left(u64_to_string(m.nlink), 3);
    r.append(links.as_str());
    r.append(" ");
    let uid = u64_to_string(m.uid as u64);
    r.append(uid.as_str());
    r.append(":");
    let gid = u64_to_string(m.gid as u64);
    r.append(gid.as_str());
    r.append(" ");
    let size = pad_left(u64_to_string(m.size), 8);
    r.append(size.as_str());
    r.append(" ");
    let time = format_time(m.mtime);
    r.append(time.as_str());
    r.append(" ");
    let disp = classified_name(name, is_dir, m.mode);
    r.append(disp.as_str());
    proof {
        reveal_strlit(" ");
        reveal_strlit(":");
        assert(" "@ =~= seq![' ']);
        assert(":"@ =~= seq![':']);
        assert(r@ =~= long_line_chars(namev, is_dir, m));
    }
    r
}

} // verus!
