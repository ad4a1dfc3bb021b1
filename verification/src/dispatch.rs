//! The dispatcher: selecting a builtin from the command token and
//! running one line against the filesystem model.

use vstd::prelude::*;
use vstd::string::*;
use crate::errors::{ErrKind, kind_message, message_of};
use crate::fsmodel::FsModel;
use crate::paths::path_of;
use crate::split::{tokens_of, views_of, parse_command};
use crate::strutil::{str_eq, char_string};
use crate::builtins::{
    mkdir_t, rm_t, cp_t, mv_t, cat_t, joined, echo_line, cd_target, cd_target_t, opt_str_view,
    mkdir_model, rm_model, cp_model, mv_model, cat_model,
};

verus! {

/// The builtin a command token selects.
#[derive(Clone, Copy, Debug, PartialEq, Eq, Structural)]
pub enum BuiltinId {
    Pwd,
    Cd,
    Echo,
    Cat,
    Mkdir,
    Rm,
    Cp,
    Mv,
    Ls,
    Exit,
    Empty,
    Unknown,
}

/// Which builtin a command token names, by exact case-sensitive match;
/// the empty token is a no-op and anything else is unknown.
pub open spec fn lookup_spec(cmd: Seq<char>) -> BuiltinId {
    if cmd.len() == 0 {
        BuiltinId::Empty
    } else if cmd == "exit"@ {
        BuiltinId::Exit
    } else if cmd == "pwd"@ {
        BuiltinId::Pwd
    } else if cmd == "cd"@ {
        BuiltinId::Cd
    } else if cmd == "echo"@ {
        BuiltinId::Echo
    } else if cmd == "cat"@ {
        BuiltinId::Cat
    } else if cmd == "mkdir"@ {
        BuiltinId::Mkdir
    } else if cmd == "rm"@ {
        BuiltinId::Rm
    } else if cmd == "cp"@ {
        BuiltinId::Cp
    } else if cmd == "mv"@ {
        BuiltinId::Mv
    } else if cmd == "ls"@ {
        BuiltinId::Ls
    } else {
        BuiltinId::Unknown
    }
}

/// Selects the builtin named by a command token.
pub fn lookup(cmd: &str) -> (b: BuiltinId)
    ensures
        b == lookup_spec(cmd@),
{
    if cmd.unicode_len() == 0 {
        BuiltinId::Empty
    } else if str_eq(cmd, "exit") {
        BuiltinId::Exit
    } else if str_eq(cmd, "pwd") {
        BuiltinId::Pwd
    } else if str_eq(cmd, "cd") {
        BuiltinId::Cd
    } else if str_eq(cmd, "echo") {
        BuiltinId::Echo
    } else if str_eq(cmd, "cat") {
        BuiltinId::Cat
    } else if str_eq(cmd, "mkdir") {
        BuiltinId::Mkdir
    } else if str_eq(cmd, "rm") {
        BuiltinId::Rm
    } else if str_eq(cmd, "cp") {
        BuiltinId::Cp
    } else if str_eq(cmd, "mv") {
        BuiltinId::Mv
    } else if str_eq(cmd, "ls") {
        BuiltinId::Ls
    } else {
        BuiltinId::Unknown
    }
}

/// What the front end is asked to do besides filesystem work.
pub enum Request {
    /// Nothing more: read the next line.
    Proceed,
    /// Terminate the session successfully.
    Exit,
    /// Print the current working directory.
    PrintCwd,
    /// Change the working directory to the given target.
    ChangeDir(String),
    /// List a directory with the given raw arguments.
    List(Vec<String>),
}

/// The outcome of one dispatched line.
pub struct LineOut {
    /// Lines for the output stream.
    pub out: Vec<String>,
    /// File contents `cat` streams to the output stream.
    pub blobs: Vec<Vec<u8>>,
    /// Lines for the error stream.
    pub err: Vec<String>,
    /// What remains for the front end to do.
    pub req: Request,
}

/// The command token of a line.
pub open spec fn line_cmd(line: Seq<char>) -> Seq<char> {
    if tokens_of(line).len() == 0 {
        Seq::empty()
    } else {
        tokens_of(line)[0]
    }
}

/// The argument tokens of a line.
pub open spec fn line_args(line: Seq<char>) -> Seq<Seq<char>> {
    if tokens_of(line).len() == 0 {
        Seq::empty()
    } else {
        tokens_of(line).drop_first()
    }
}

/// The message shown for an unrecognized command.
pub open spec fn not_found_chars(cmd: Seq<char>) -> Seq<char> {
    "Command '"@ + cmd + "' not found"@
}

/// Renders the unrecognized-command message.
pub fn not_found_line(cmd: &str) -> (r: String)
    ensures
        r@ == not_found_chars(cmd@),
{
    let mut r = String::from_str("Command '");
    r.append(cmd);
    r.append("' not found");
    r
}

/// A builtin's error line for one operand: the builtin's name, the
/// operand, and the error message.
pub open spec fn err_line_chars(cmd: Seq<char>, operand: Seq<char>, k: ErrKind) -> Seq<char> {
    cmd + ": "@ + operand + ": "@ + kind_message(k)
}

/// Renders a builtin's error line for one operand.
pub fn err_line(cmd: &str, operand: &str, k: ErrKind) -> (r: String)
    ensures
        r@ == err_line_chars(cmd@, operand@, k),
{
    let mut r = String::from_str(cmd);
    r.append(": ");
    r.append(operand);
    r.append(": ");
    let msg = message_of(k);
    r.append(msg.as_str());
    r
}

/// A builtin's invalid-option message for one flag character.
pub open spec fn invalid_option_chars(cmd: Seq<char>, c: char) -> Seq<char> {
    cmd + ": invalid option -- '"@ + seq![c] + "'"@
}

/// Renders a builtin's invalid-option message.
pub fn invalid_option_line(cmd: &str, c: char) -> (r: String)
    ensures
        r@ == invalid_option_chars(cmd@, c),
{
    let mut r = String::from_str(cmd);
    r.append(": invalid option -- '");
    let cs = char_string(c);
    r.append(cs.as_str());
    r.append("'");
    r
}

/// Folds `rm`'s flag characters (after the dash), failing on the first
/// unknown one.
pub open spec fn rm_flag_chars(cs: Seq<char>, rec: bool) -> Result<bool, char>
    decreases cs.len(),
{
    if cs.len() == 0 {
        Ok(rec)
    } else if cs[0] == 'r' {
        rm_flag_chars(cs.drop_first(), true)
    } else {
        Err(cs[0])
    }
}

/// Splits `rm`'s arguments into the recursive flag and the operand
/// list, in order, failing on the first unknown flag character.
pub open spec fn rm_args_t(args: Seq<Seq<char>>, rec: bool) -> Result<(bool, Seq<Seq<char>>), char>
    decreases args.len(),
{
    if args.len() == 0 {
        Ok((rec, Seq::empty()))
    } else if args[0].len() > 0 && args[0][0] == '-' {
        match rm_flag_chars(args[0].skip(1), rec) {
            Ok(r2) => rm_args_t(args.drop_first(), r2),
            Err(c) => Err(c),
        }
    } else {
        match rm_args_t(args.drop_first(), rec) {
            Ok((r2, files)) => Ok((r2, seq![args[0]] + files)),
            Err(c) => Err(c),
        }
    }
}

/// The view of a parsed `rm` argument result.
pub open spec fn rm_parse_view(r: Result<(bool, Vec<String>), char>) -> Result<
    (bool, Seq<Seq<char>>),
    char,
> {
    match r {
        Ok((rec, files)) => Ok((rec, views_of(files@))),
        Err(c) => Err(c),
    }
}

/// Parses `rm`'s arguments into the recursive flag and the operands.
pub fn parse_rm_args(args: &Vec<String>) -> (r: Result<(bool, Vec<String>), char>)
    ensures
        rm_parse_view(r) == rm_args_t(views_of(args@), false),
{
    let ghost av = views_of(args@);
    let mut rec = false;
    let mut files: Vec<String> = Vec::new();
    let mut i: usize = 0;
    proof {
        assert(av.skip(0) =~= av);
        assert(views_of(files@).len() == 0);
    }
    while i < args.len()
        invariant
            i <= args@.len(),
            av == views_of(args@),
            rm_args_t(av, false) == (match rm_args_t(av.skip(i as int), rec) {
                Ok((r2, fl)) => Ok((r2, views_of(files@) + fl)),
                Err(c) => Err::<(bool, Seq<Seq<char>>), char>(c),
            }),
        decreases args@.len() - i,
    {
        let a = &args[i];
        let n = a.as_str().unicode_len();
        let ghost head = av.skip(i as int);
        proof {
            assert(head[0] == a@);
            assert(head.drop_first() =~= av.skip(i as int + 1));
        }
        if n > 0 && a.as_str().get_char(0) == '-' {
            let mut j: usize = 1;
            proof {
                assert(a@.skip(1).skip(0) =~= a@.skip(1));
            }
            while j < n
                invariant
                    1 <= j <= n,
                    n == a@.len(),
                    a@[0] == '-',
                    av == views_of(args@),
                    rm_args_t(av, false) == (match rm_flag_chars(a@.skip(j as int), rec) {
                        Ok(r2) => match rm_args_t(av.skip(i as int + 1), r2) {
                            Ok((r3, fl)) => Ok((r3, views_of(files@) + fl)),
                            Err(c) => Err::<(bool, Seq<Seq<char>>), char>(c),
                        },
                        Err(c) => Err::<(bool, Seq<Seq<char>>), char>(c),
                    }),
                decreases n - j,
            {
                let c = a.as_str().get_char(j);
                proof {
                    assert(a@.skip(j as int)[0] == a@[j as int]);
                    assert(a@.skip(j as int).drop_first() =~= a@.skip(j as int + 1));
                }
                if c == 'r' {
                    rec = true;
                } else {
                    proof {
                        assert(a@.skip(j as int).len() > 0);
                        assert(rm_flag_chars(a@.skip(j as int), rec) == Err::<bool, char>(c));
                    }
                    return Err(c);
                }
                j += 1;
            }
            proof {
                assert(a@.skip(n as int).len() == 0);
            }
        } else {
            let ghost files0 = views_of(files@);
            files.push(a.clone());
            proof {
                assert(views_of(files@) =~= files0.push(a@));
                match rm_args_t(av.skip(i as int + 1), rec) {
                    Ok((r2, fl2)) => {
                        assert(files0.push(head[0]) + fl2 =~= files0 + (seq![head[0]] + fl2));
                    },
                    Err(c) => {},
                }
            }
        }
        i += 1;
    }
    proof {
        assert(av.skip(av.len() as int).len() == 0);
        assert(views_of(files@) + Seq::<Seq<char>>::empty() =~= views_of(files@));
    }
    Ok((rec, files))
}

/// Folds `mkdir` over its operands: each is created independently and a
/// failure adds one error line without stopping the rest.
pub open spec fn mkdir_fold(m: Map<Seq<Seq<char>>, crate::fsmodel::NodeV>, args: Seq<Seq<char>>) -> (
    Map<Seq<Seq<char>>, crate::fsmodel::NodeV>,
    Seq<Seq<char>>,
)
    decreases args.len(),
{
    if args.len() == 0 {
        (m, Seq::empty())
    } else {
        let step = mkdir_t(m, path_of(args[0]));
        let errs = match step.1 {
            Ok(u) => Seq::<Seq<char>>::empty(),
            Err(k) => seq![err_line_chars("mkdir"@, args[0], k)],
        };
        let rest = mkdir_fold(step.0, args.drop_first());
        (rest.0, errs + rest.1)
    }
}

/// Folds `rm` over its operands under the parsed flag.
pub open spec fn rm_fold(
    m: Map<Seq<Seq<char>>, crate::fsmodel::NodeV>,
    files: Seq<Seq<char>>,
    rec: bool,
) -> (Map<Seq<Seq<char>>, crate::fsmodel::NodeV>, Seq<Seq<char>>)
    decreases files.len(),
{
    if files.len() == 0 {
        (m, Seq::empty())
    } else {
        let step = rm_t(m, path_of(files[0]), rec);
        let errs = match step.1 {
            Ok(u) => Seq::<Seq<char>>::empty(),
            Err(k) => seq![err_line_chars("rm"@, files[0], k)],
        };
        let rest = rm_fold(step.0, files.drop_first(), rec);
        (rest.0, errs + rest.1)
    }
}

/// Folds `cat` over its operands: contents of readable files in order,
/// one error line per failing operand.
pub open spec fn cat_fold(m: Map<Seq<Seq<char>>, crate::fsmodel::NodeV>, args: Seq<Seq<char>>) -> (
    Seq<Seq<u8>>,
    Seq<Seq<char>>,
)
    decreases args.len(),
{
    if args.len() == 0 {
        (Seq::empty(), Seq::empty())
    } else {
        let rest = cat_fold(m, args.drop_first());
        match cat_t(m, path_of(args[0])) {
            Ok(c) => (seq![c] + rest.0, rest.1),
            Err(k) => (rest.0, seq![err_line_chars("cat"@, args[0], k)] + rest.1),
        }
    }
}

/// The views of a sequence of byte vectors.
pub open spec fn blob_views(bs: Seq<Vec<u8>>) -> Seq<Seq<u8>> {
    bs.map_values(|b: Vec<u8>| b@)
}

/// Dispatches one input line against the filesystem model.
///
/// The line is tokenized; the command token selects a builtin by exact
/// match; the builtin runs over the model with the argument, flag and
/// error conventions of the corresponding shell tool.  An unrecognized command produces
/// exactly one message and changes nothing.
pub fn run_line(fs: &mut FsModel, home: Option<&String>, line: &str) -> (o: LineOut)
    requires
        old(fs).inv(),
    ensures
        final(fs).inv(),
        ({
            let b = lookup_spec(line_cmd(line@));
            let a = line_args(line@);
            &&& (b == BuiltinId::Empty ==> final(fs)@ == old(fs)@ && o.out@.len() == 0
                && o.blobs@.len() == 0 && o.err@.len() == 0 && o.req is Proceed)
            &&& (b == BuiltinId::Unknown ==> final(fs)@ == old(fs)@ && views_of(o.out@) == seq![
                not_found_chars(line_cmd(line@)),
            ] && o.blobs@.len() == 0 && o.err@.len() == 0 && o.req is Proceed)
            &&& (b == BuiltinId::Exit ==> final(fs)@ == old(fs)@ && o.out@.len() == 0
                && o.blobs@.len() == 0 && o.err@.len() == 0 && o.req is Exit)
            &&& (b == BuiltinId::Pwd ==> final(fs)@ == old(fs)@ && o.out@.len() == 0
                && o.blobs@.len() == 0 && o.err@.len() == 0 && o.req is PrintCwd)
            &&& (b == BuiltinId::Echo ==> final(fs)@ == old(fs)@ && views_of(o.out@) == seq![
                joined(a),
            ] && o.blobs@.len() == 0 && o.err@.len() == 0 && o.req is Proceed)
            &&& (b == BuiltinId::Ls ==> final(fs)@ == old(fs)@ && o.out@.len() == 0
                && o.blobs@.len() == 0 && o.err@.len() == 0 && (o.req matches Request::List(v)
                && views_of(v@) == a))
            &&& (b == BuiltinId::Cd ==> final(fs)@ == old(fs)@ && o.out@.len() == 0
                && o.blobs@.len() == 0 && (match cd_target_t(a, opt_str_view(home)) {
                Ok(t) => o.err@.len() == 0 && (o.req matches Request::ChangeDir(s) && s@ == t),
                Err(k) => o.req is Proceed && views_of(o.err@) == seq![
                    "cd: HOME environment variable not set"@,
                ],
            }))
            &&& (b == BuiltinId::Mkdir ==> o.out@.len() == 0 && o.blobs@.len() == 0
                && o.req is Proceed && (a.len() == 0 ==> final(fs)@ == old(fs)@ && views_of(o.err@)
                == seq!["mkdir: missing operand"@]) && (a.len() > 0 ==> (final(fs)@, views_of(
                o.err@,
            )) == mkdir_fold(old(fs)@, a)))
            &&& (b == BuiltinId::Rm ==> o.out@.len() == 0 && o.blobs@.len() == 0
                && o.req is Proceed && (a.len() == 0 ==> final(fs)@ == old(fs)@ && views_of(o.err@)
                == seq!["rm: missing operand"@]) && (a.len() > 0 ==> (match rm_args_t(a, false) {
                Err(c) => final(fs)@ == old(fs)@ && views_of(o.err@) == seq![
                    invalid_option_chars("rm"@, c),
                ],
                Ok((rec, files)) => (files.len() == 0 ==> final(fs)@ == old(fs)@ && views_of(
                    o.err@,
                ) == seq!["rm: missing operand"@]) && (files.len() > 0 ==> (final(fs)@, views_of(
                    o.err@,
                )) == rm_fold(old(fs)@, files, rec)),
            })))
            &&& (b == BuiltinId::Cp ==> o.out@.len() == 0 && o.blobs@.len() == 0
                && o.req is Proceed && (a.len() != 2 ==> final(fs)@ == old(fs)@ && views_of(o.err@)
                == seq!["cp: usage: cp <source> <destination>"@]) && (a.len() == 2 ==> final(fs)@
                == cp_t(old(fs)@, path_of(a[0]), path_of(a[1])).0 && (match cp_t(
                old(fs)@,
                path_of(a[0]),
                path_of(a[1]),
            ).1 {
                Ok(u) => o.err@.len() == 0,
                Err(k) => views_of(o.err@) == seq![err_line_chars("cp"@, a[0], k)],
            })))
            &&& (b == BuiltinId::Mv ==> o.out@.len() == 0 && o.blobs@.len() == 0
                && o.req is Proceed && (a.len() != 2 ==> final(fs)@ == old(fs)@ && views_of(o.err@)
                == seq!["mv: usage: mv <source> <destination>"@]) && (a.len() == 2 ==> final(fs)@
                == mv_t(old(fs)@, path_of(a[0]), path_of(a[1])).0 && (match mv_t(
                old(fs)@,
                path_of(a[0]),
                path_of(a[1]),
            ).1 {
                Ok(u) => o.err@.len() == 0,
                Err(k) => views_of(o.err@) == seq![err_line_chars("mv"@, a[0], k)],
            })))
            &&& (b == BuiltinId::Cat ==> o.out@.len() == 0 && o.req is Proceed && final(fs)@ == old(
                fs,
            )@ && (a.len() == 0 ==> o.blobs@.len() == 0 && views_of(o.err@) == seq![
                "cat: no files specified"@,
            ]) && (a.len() > 0 ==> (blob_views(o.blobs@), views_of(o.err@)) == cat_fold(
                old(fs)@,
                a,
            )))
        }),
{
    let (cmd, args) = parse_command(line);
    let ghost a = line_args(line@);
    proof {
        assert(cmd@ == line_cmd(line@));
        if tokens_of(line@).len() > 0 {
            assert(views_of(args@) == a);
        } else {
            assert(views_of(args@) =~= a);
        }
    }
    let b = lookup(cmd.as_str());
    let mut out: Vec<String> = Vec::new();
    let mut blobs: Vec<Vec<u8>> = Vec::new();
    let mut err: Vec<String> = Vec::new();
    match b {
        BuiltinId::Empty => LineOut { out, blobs, err, req: Request::Proceed },
        BuiltinId::Exit => LineOut { out, blobs, err, req: Request::Exit },
        BuiltinId::Pwd => LineOut { out, blobs, err, req: Request::PrintCwd },
        BuiltinId::Unknown => {
            let msg = not_found_line(cmd.as_str());
            out.push(msg);
            proof {
                assert(views_of(out@) =~= seq![not_found_chars(line_cmd(line@))]);
            }
            LineOut { out, blobs, err, req: Request::Proceed }
        },
        BuiltinId::Echo => {
            let msg = echo_line(&args);
            out.push(msg);
            proof {
                assert(views_of(out@) =~= seq![joined(a)]);
            }
            LineOut { out, blobs, err, req: Request::Proceed }
        },
        BuiltinId::Ls => LineOut { out, blobs, err, req: Request::List(args) },
        BuiltinId::Cd => {
            match cd_target(&args, home) {
                Ok(t) => LineOut { out, blobs, err, req: Request::ChangeDir(t) },
                Err(k) => {
                    err.push(String::from_str("cd: HOME environment variable not set"));
                    proof {
                        assert(views_of(err@) =~= seq![
                            "cd: HOME environment variable not set"@,
                        ]);
                    }
                    LineOut { out, blobs, err, req: Request::Proceed }
                },
            }
        },
        BuiltinId::Mkdir => {
            if args.len() == 0 {
                err.push(String::from_str("mkdir: missing operand"));
                proof {
                    assert(views_of(err@) =~= seq!["mkdir: missing operand"@]);
                }
                return LineOut { out, blobs, err, req: Request::Proceed };
            }
            let ghost m0 = fs@;
            let mut i: usize = 0;
            proof {
                assert(a.skip(0) =~= a);
                assert(views_of(err@) + mkdir_fold(fs@, a).1 =~= mkdir_fold(fs@, a).1);
            }
            while i < args.len()
                invariant
                    fs.inv(),
                    i <= args@.len(),
                    a == views_of(args@),
                    mkdir_fold(m0, a).0 == mkdir_fold(fs@, a.skip(i as int)).0,
                    mkdir_fold(m0, a).1 == views_of(err@) + mkdir_fold(fs@, a.skip(i as int)).1,
                decreases args@.len() - i,
            {
                let ghost head = a.skip(i as int);
                proof {
                    assert(head[0] == a[i as int]);
                    assert(head.drop_first() =~= a.skip(i as int + 1));
                }
                let p = crate::paths::parse_path(args[i].as_str());
                let ghost e0 = views_of(err@);
                let r = mkdir_model(fs, &p);
                match r {
                    Err(k) => {
                        let msg = err_line("mkdir", args[i].as_str(), k);
                        err.push(msg);
                        proof {
                            assert(views_of(err@) =~= e0.push(err_line_chars("mkdir"@, head[0], k)));
                            assert(e0.push(err_line_chars("mkdir"@, head[0], k)) + mkdir_fold(
                                fs@,
                                head.drop_first(),
                            ).1 =~= e0 + (seq![err_line_chars("mkdir"@, head[0], k)] + mkdir_fold(
                                fs@,
                                head.drop_first(),
                            ).1));
                        }
                    },
                    Ok(u) => {
                        proof {
                            assert(views_of(err@) + mkdir_fold(fs@, head.drop_first()).1 =~= e0 + (
                            Seq::<Seq<char>>::empty() + mkdir_fold(fs@, head.drop_first()).1));
                        }
                    },
                }
                i += 1;
            }
            proof {
                assert(a.skip(a.len() as int).len() == 0);
                assert(views_of(err@) + Seq::<Seq<char>>::empty() =~= views_of(err@));
            }
            LineOut { out, blobs, err, req: Request::Proceed }
        },
        BuiltinId::Rm => {
            if args.len() == 0 {
                err.push(String::from_str("rm: missing operand"));
                proof {
                    assert(views_of(err@) =~= seq!["rm: missing operand"@]);
                }
                return LineOut { out, blobs, err, req: Request::Proceed };
            }
            match parse_rm_args(&args) {
                Err(c) => {
                    let msg = invalid_option_line("rm", c);
                    err.push(msg);
                    proof {
                        assert(views_of(err@) =~= seq![invalid_option_chars("rm"@, c)]);
                    }
                    LineOut { out, blobs, err, req: Request::Proceed }
                },
                Ok((rec, files)) => {
                    if files.len() == 0 {
                        err.push(String::from_str("rm: missing operand"));
                        proof {
                            assert(views_of(err@) =~= seq!["rm: missing operand"@]);
                        }
                        return LineOut { out, blobs, err, req: Request::Proceed };
                    }
                    let ghost fl = views_of(files@);
                    let ghost m0 = fs@;
                    let mut i: usize = 0;
                    proof {
                        assert(fl.skip(0) =~= fl);
                        assert(views_of(err@) + rm_fold(fs@, fl, rec).1 =~= rm_fold(
                            fs@,
                            fl,
                            rec,
                        ).1);
                    }
                    while i < files.len()
                        invariant
                            fs.inv(),
                            i <= files@.len(),
                            fl == views_of(files@),
                            rm_fold(m0, fl, rec).0 == rm_fold(fs@, fl.skip(i as int), rec).0,
                            rm_fold(m0, fl, rec).1 == views_of(err@) + rm_fold(
                                fs@,
                                fl.skip(i as int),
                                rec,
                            ).1,
                        decreases files@.len() - i,
                    {
                        let ghost head = fl.skip(i as int);
                        proof {
                            assert(head[0] == fl[i as int]);
                            assert(head.drop_first() =~= fl.skip(i as int + 1));
                        }
                        let p = crate::paths::parse_path(files[i].as_str());
                        let ghost e0 = views_of(err@);
                        let r = rm_model(fs, &p, rec);
                        match r {
                            Err(k) => {
                                let msg = err_line("rm", files[i].as_str(), k);
                                err.push(msg);
                                proof {
                                    assert(views_of(err@) =~= e0.push(err_line_chars(
                                        "rm"@,
                                        head[0],
                                        k,
                                    )));
                                    assert(e0.push(err_line_chars("rm"@, head[0], k)) + rm_fold(
                                        fs@,
                                        head.drop_first(),
                                        rec,
                                    ).1 =~= e0 + (seq![err_line_chars("rm"@, head[0], k)]
                                        + rm_fold(fs@, head.drop_first(), rec).1));
                                }
                            },
                            Ok(u) => {
                                proof {
                                    assert(views_of(err@) + rm_fold(fs@, head.drop_first(), rec).1
                                        =~= e0 + (Seq::<Seq<char>>::empty() + rm_fold(
                                        fs@,
                                        head.drop_first(),
                                        rec,
                                    ).1));
                                }
                            },
                        }
                        i += 1;
                    }
                    proof {
                        assert(fl.skip(fl.len() as int).len() == 0);
                        assert(views_of(err@) + Seq::<Seq<char>>::empty() =~= views_of(err@));
                    }
                    LineOut { out, blobs, err, req: Request::Proceed }
                },
            }
        },
        BuiltinId::Cp => {
            if args.len() != 2 {
                err.push(String::from_str("cp: usage: cp <source> <destination>"));
                proof {
                    assert(views_of(err@) =~= seq!["cp: usage: cp <source> <destination>"@]);
                }
                return LineOut { out, blobs, err, req: Request::Proceed };
            }
            let src = crate::paths::parse_path(args[0].as_str());
            let dest = crate::paths::parse_path(args[1].as_str());
            let r = cp_model(fs, &src, &dest);
            match r {
                Err(k) => {
                    let msg = err_line("cp", args[0].as_str(), k);
                    err.push(msg);
                    proof {
                        assert(views_of(err@) =~= seq![err_line_chars("cp"@, a[0], k)]);
                    }
                },
                Ok(u) => {},
            }
            LineOut { out, blobs, err, req: Request::Proceed }
        },
        BuiltinId::Mv => {
            if args.len() != 2 {
                err.push(String::from_str("mv: usage: mv <source> <destination>"));
                proof {
                    assert(views_of(err@) =~= seq!["mv: usage: mv <source> <destination>"@]);
                }
                return LineOut { out, blobs, err, req: Request::Proceed };
            }
            let src = crate::paths::parse_path(args[0].as_str());
            let dest = crate::paths::parse_path(args[1].as_str());
            let r = mv_model(fs, &src, &dest);
            match r {
                Err(k) => {
                    let msg = err_line("mv", args[0].as_str(), k);
                    err.push(msg);
                    proof {
                        assert(views_of(err@) =~= seq![err_line_chars("mv"@, a[0], k)]);
                    }
                },
                Ok(u) => {},
            }
            LineOut { out, blobs, err, req: Request::Proceed }
        },
        BuiltinId::Cat => {
            if args.len() == 0 {
                err.push(String::from_str("cat: no files specified"));
                proof {
                    assert(views_of(err@) =~= seq!["cat: no files specified"@]);
                }
                return LineOut { out, blobs, err, req: Request::Proceed };
            }
            let mut i: usize = 0;
            proof {
                assert(a.skip(0) =~= a);
                assert(blob_views(blobs@) + cat_fold(fs@, a).0 =~= cat_fold(fs@, a).0);
                assert(views_of(err@) + cat_fold(fs@, a).1 =~= cat_fold(fs@, a).1);
            }
            while i < args.len()
                invariant
                    fs.inv(),
                    i <= args@.len(),
                    a == views_of(args@),
                    cat_fold(fs@, a).0 == blob_views(blobs@) + cat_fold(fs@, a.skip(i as int)).0,
                    cat_fold(fs@, a).1 == views_of(err@) + cat_fold(fs@, a.skip(i as int)).1,
                decreases args@.len() - i,
            {
                let ghost head = a.skip(i as int);
                proof {
                    assert(head[0] == a[i as int]);
                    assert(head.drop_first() =~= a.skip(i as int + 1));
                }
                let p = crate::paths::parse_path(args[i].as_str());
                let ghost b0 = blob_views(blobs@);
                let ghost e0 = views_of(err@);
                let r = cat_model(fs, &p);
                match r {
                    Ok(c) => {
                        let ghost cv = c@;
                        blobs.push(c);
                        proof {
                            assert(blob_views(blobs@) =~= b0.push(cv));
                            assert(b0.push(cv) + cat_fold(fs@, head.drop_first()).0 =~= b0 + (seq![
                                cv,
                            ] + cat_fold(fs@, head.drop_first()).0));
                        }
                    },
                    Err(k) => {
                        let msg = err_line("cat", args[i].as_str(), k);
                        err.push(msg);
                        proof {
                            assert(views_of(err@) =~= e0.push(err_line_chars("cat"@, head[0], k)));
                            assert(e0.push(err_line_chars("cat"@, head[0], k)) + cat_fold(
                                fs@,
                                head.drop_first(),
                            ).1 =~= e0 + (seq![err_line_chars("cat"@, head[0], k)] + cat_fold(
                                fs@,
                                head.drop_first(),
                            ).1));
                        }
                    },
                }
                i += 1;
            }
            proof {
                assert(a.skip(a.len() as int).len() == 0);
                assert(blob_views(blobs@) + Seq::<Seq<u8>>::empty() =~= blob_views(blobs@));
                assert(views_of(err@) + Seq::<Seq<char>>::empty() =~= views_of(err@));
            }
            LineOut { out, blobs, err, req: Request::Proceed }
        },
    }
}

} // verus!
