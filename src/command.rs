//! The builtin commands: how a command name is classified, and what each
//! builtin prints or asks the shell to do.

use vstd::prelude::*;
use crate::args::words_of;
use crate::history::{history_args_match, HistoryArgs};
use crate::text::{
    chars_of, i32_value, join, parse_i32, pieces_of, push_str, same_text, copy_chars, split, split_chars,
    string_of,
};

verus! {

/// What a command name stands for: a builtin, a program found on the search
/// path, or nothing.
#[derive(Clone, Debug, PartialEq, Eq)]
pub enum Command {
    Exit,
    Echo,
    Type,
    Executable { name: String, full_path: String },
    Pwd,
    Cd,
    History,
    Invalid,
}

/// The builtin that `name` names, if any.
pub open spec fn builtin_of(name: Seq<char>) -> Option<Command> {
    if name == "exit"@ {
        Some(Command::Exit)
    } else if name == "echo"@ {
        Some(Command::Echo)
    } else if name == "type"@ {
        Some(Command::Type)
    } else if name == "pwd"@ {
        Some(Command::Pwd)
    } else if name == "cd"@ {
        Some(Command::Cd)
    } else if name == "history"@ {
        Some(Command::History)
    } else {
        None
    }
}

/// Whether the command is one of the builtins.
pub open spec fn is_builtin_kind(c: Command) -> bool {
    !(c is Executable) && !(c is Invalid)
}

impl Command {
    /// The builtin that `name` names, if any.
    pub fn builtin(name: &str) -> (r: Option<Command>)
        ensures
            r == builtin_of(name@),
    {
        if same_text(name, "exit") {
            Some(Command::Exit)
        } else if same_text(name, "echo") {
            Some(Command::Echo)
        } else if same_text(name, "type") {
            Some(Command::Type)
        } else if same_text(name, "pwd") {
            Some(Command::Pwd)
        } else if same_text(name, "cd") {
            Some(Command::Cd)
        } else if same_text(name, "history") {
            Some(Command::History)
        } else {
            None
        }
    }

    /// Classifies `name`: a builtin if it names one; otherwise a program at
    /// `resolved`, the first executable file that the search path gives for
    /// it; otherwise invalid.
    pub fn classify(name: &str, resolved: Option<String>) -> (r: Command)
        ensures
            match builtin_of(name@) {
                Some(b) => r == b,
                None => match resolved {
                    Some(p) => r matches Command::Executable { name: n, full_path: q } && n@
                        == name@ && q == p,
                    None => r == Command::Invalid,
                },
            },
    {
        match Command::builtin(name) {
            Some(b) => b,
            None => match resolved {
                Some(p) => Command::Executable { name: string_of(chars_of(name).as_slice()), full_path: p },
                None => Command::Invalid,
            },
        }
    }

    /// Whether this is one of the builtins.
    pub fn is_builtin(&self) -> (r: bool)
        ensures
            r == is_builtin_kind(*self),
    {
        match self {
            Command::Executable { .. } => false,
            Command::Invalid => false,
            _ => true,
        }
    }
}

/// `name` looked up in `dir`, as `Path::join` puts them together.
pub open spec fn join_path(dir: Seq<char>, name: Seq<char>) -> Seq<char> {
    if name.len() > 0 && name[0] == '/' {
        name
    } else if dir.len() == 0 || dir.last() == '/' {
        dir + name
    } else {
        dir + seq!['/'] + name
    }
}

/// The paths at which `name` is looked for, one per entry of the
/// colon-separated search path, in order.
pub open spec fn candidates_of(path_var: Seq<char>, name: Seq<char>) -> Seq<Seq<char>> {
    split(path_var, ':').map_values(|d: Seq<char>| join_path(d, name))
}

/// The paths at which `name` is looked for along the search path `path_var`;
/// the first of them that is an executable file is the program.
pub fn path_candidates(path_var: &str, name: &str) -> (r: Vec<String>)
    ensures
        words_of(r@) == candidates_of(path_var@, name@),
{
    let dirs = split_chars(&chars_of(path_var), ':');
    let nm = chars_of(name);
    let absolute = nm.len() > 0 && nm[0] == '/';
    let mut r: Vec<String> = Vec::new();
    let mut i: usize = 0;
    while i < dirs.len()
        invariant
            pieces_of(dirs@) == split(path_var@, ':'),
            nm@ == name@,
            absolute == (name@.len() > 0 && name@[0] == '/'),
            i <= dirs@.len(),
            words_of(r@) == candidates_of(path_var@, name@).subrange(0, i as int),
        decreases dirs.len() - i,
    {
        let d = &dirs[i];
        assert(pieces_of(dirs@)[i as int] == d@);
        let mut p: Vec<char> = Vec::new();
        if !absolute {
            let mut k: usize = 0;
            while k < d.len()
                invariant
                    k <= d@.len(),
                    p@ == d@.subrange(0, k as int),
                decreases d.len() - k,
            {
                p.push(d[k]);
                assert(p@ =~= d@.subrange(0, k + 1));
                k = k + 1;
            }
            assert(p@ =~= d@);
            if d.len() > 0 && d[d.len() - 1] != '/' {
                p.push('/');
            }
        }
        let mut k: usize = 0;
        let ghost base = p@;
        while k < nm.len()
            invariant
                k <= nm@.len(),
                p@ == base + nm@.subrange(0, k as int),
            decreases nm.len() - k,
        {
            p.push(nm[k]);
            assert(p@ =~= base + nm@.subrange(0, k + 1));
            k = k + 1;
        }
        assert(nm@.subrange(0, k as int) =~= nm@);
        assert(p@ =~= join_path(d@, name@));
        let ghost old_r = r@;
        r.push(string_of(p.as_slice()));
        assert(words_of(r@) =~= words_of(old_r).push(p@));
        assert(candidates_of(path_var@, name@).subrange(0, i + 1) =~= candidates_of(
            path_var@,
            name@,
        ).subrange(0, i as int).push(p@));
        i = i + 1;
    }
    assert(candidates_of(path_var@, name@).subrange(0, i as int) =~= candidates_of(
        path_var@,
        name@,
    ));
    r
}

/// Appends `ws` joined by `sep` to `v`.
fn push_joined(v: &mut Vec<char>, ws: &Vec<String>, sep: char)
    ensures
        final(v)@ == old(v)@ + join(words_of(ws@), seq![sep]),
{
    let ghost start = v@;
    let mut i: usize = 0;
    assert(words_of(ws@).subrange(0, 0) =~= Seq::<Seq<char>>::empty());
    assert(v@ =~= start + Seq::<char>::empty());
    while i < ws.len()
        invariant
            i <= ws@.len(),
            v@ == start + join(words_of(ws@).subrange(0, i as int), seq![sep]),
        decreases ws.len() - i,
    {
        let ghost pre = words_of(ws@).subrange(0, i as int);
        let ghost next = words_of(ws@).subrange(0, i + 1);
        assert(next.drop_last() =~= pre);
        assert(next.last() == ws@[i as int]@);
        if i > 0 {
            v.push(sep);
        }
        push_str(v, ws[i].as_str());
        if i == 0 {
            assert(v@ =~= start + next[0]);
        } else {
            assert(v@ =~= start + (join(pre, seq![sep]) + seq![sep] + next.last()));
        }
        i = i + 1;
    }
    assert(words_of(ws@).subrange(0, i as int) =~= words_of(ws@));
}

/// What `echo` prints: its arguments joined by single spaces, then a newline.
pub open spec fn echo_text(args: Seq<Seq<char>>) -> Seq<char> {
    join(args, seq![' ']) + seq!['\n']
}

/// The line that `echo` prints for `args`.
pub fn echo_line(args: &Vec<String>) -> (r: String)
    ensures
        r@ == echo_text(words_of(args@)),
{
    let mut v: Vec<char> = Vec::new();
    push_joined(&mut v, args, ' ');
    v.push('\n');
    assert(v@ =~= echo_text(words_of(args@)));
    string_of(v.as_slice())
}

/// What `type` prints for `cmd`, classified as `kind`.
pub open spec fn type_text(cmd: Seq<char>, kind: Command) -> Seq<char> {
    match kind {
        Command::Invalid => cmd + ": not found\n"@,
        Command::Executable { full_path, .. } => cmd + " is "@ + full_path@ + seq!['\n'],
        _ => cmd + " is a shell builtin\n"@,
    }
}

/// The line that `type` prints for `cmd`, classified as `kind`.
pub fn type_line(cmd: &str, kind: &Command) -> (r: String)
    ensures
        r@ == type_text(cmd@, *kind),
{
    let mut v: Vec<char> = Vec::new();
    push_str(&mut v, cmd);
    match kind {
        Command::Invalid => {
            push_str(&mut v, ": not found\n");
        },
        Command::Executable { full_path, .. } => {
            push_str(&mut v, " is ");
            push_str(&mut v, full_path.as_str());
            v.push('\n');
        },
        _ => {
            push_str(&mut v, " is a shell builtin\n");
        },
    }
    assert(v@ =~= type_text(cmd@, *kind));
    string_of(v.as_slice())
}

/// The diagnostic for a command name that names nothing.
pub fn not_found_line(cmd: &str) -> (r: String)
    ensures
        r@ == cmd@ + ": command not found\n"@,
{
    let mut v: Vec<char> = Vec::new();
    push_str(&mut v, cmd);
    push_str(&mut v, ": command not found\n");
    string_of(v.as_slice())
}

/// The argument that a failed `cd` names: its first argument, or `~`.
pub open spec fn cd_arg(args: Seq<Seq<char>>) -> Seq<char> {
    if args.len() > 0 {
        args[0]
    } else {
        "~"@
    }
}

/// The diagnostic that `cd` prints when it cannot change directory.
pub fn cd_failure_line(args: &Vec<String>) -> (r: String)
    ensures
        r@ == "cd: "@ + cd_arg(words_of(args@)) + ": No such file or directory\n"@,
{
    let mut v: Vec<char> = Vec::new();
    push_str(&mut v, "cd: ");
    if args.len() > 0 {
        push_str(&mut v, args[0].as_str());
    } else {
        push_str(&mut v, "~");
    }
    push_str(&mut v, ": No such file or directory\n");
    string_of(v.as_slice())
}

/// The status that `exit` ends the shell with: its first argument read as a
/// 32-bit integer, or 0 when there is none or it does not read as one.
pub open spec fn exit_status(args: Seq<Seq<char>>) -> int {
    if args.len() > 0 {
        match i32_value(args[0]) {
            Some(v) => v,
            None => 0,
        }
    } else {
        0
    }
}

/// The status that `exit` ends the shell with.
pub fn exit_code(args: &Vec<String>) -> (r: i32)
    ensures
        r as int == exit_status(words_of(args@)),
{
    if args.len() == 0 {
        return 0;
    }
    match parse_i32(args[0].as_str()) {
        Some(v) => v,
        None => 0,
    }
}

/// The text of an optional string.
pub open spec fn opt_view(o: Option<String>) -> Option<Seq<char>> {
    match o {
        Some(s) => Some(s@),
        None => None,
    }
}

/// Whether a path segment is `..`.
pub open spec fn is_parent(part: Seq<char>) -> bool {
    part == seq!['.', '.']
}

/// Whether a path segment names no directory: empty, or `.`.
pub open spec fn is_blank(part: Seq<char>) -> bool {
    part.len() == 0 || part == seq!['.']
}

/// The directories of an absolute path, as `Path::components` gives them.
pub open spec fn dirs_from(acc: Seq<Seq<char>>, parts: Seq<Seq<char>>) -> Seq<Seq<char>>
    decreases parts.len(),
{
    if parts.len() == 0 {
        acc
    } else {
        dirs_from(
            if is_blank(parts[0]) {
                acc
            } else {
                acc.push(parts[0])
            },
            parts.drop_first(),
        )
    }
}

/// The directories of the absolute path `p`.
pub open spec fn dirs_of(p: Seq<char>) -> Seq<Seq<char>> {
    dirs_from(Seq::empty(), split(p, '/'))
}

/// The directories after each segment of `parts` in turn: `..` goes up one
/// level (not above the root), an empty segment or `.` stays, any other goes
/// into that directory.
pub open spec fn walk(acc: Seq<Seq<char>>, parts: Seq<Seq<char>>) -> Seq<Seq<char>>
    decreases parts.len(),
{
    if parts.len() == 0 {
        acc
    } else {
        walk(
            if is_parent(parts[0]) {
                if acc.len() > 0 {
                    acc.drop_last()
                } else {
                    acc
                }
            } else if is_blank(parts[0]) {
                acc
            } else {
                acc.push(parts[0])
            },
            parts.drop_first(),
        )
    }
}

/// The absolute path of a list of directories.
pub open spec fn render(dirs: Seq<Seq<char>>) -> Seq<char> {
    seq!['/'] + join(dirs, seq!['/'])
}

/// The directories that the first segment of a `cd` argument starts from:
/// the home directory for `~`, the current one for `.`, the root for an empty
/// segment (an absolute argument), the parent of the current one for `..`,
/// and otherwise the segment inside the current one. `None` when the
/// directory it needs is unknown.
pub open spec fn start_dirs(first: Seq<char>, home: Option<Seq<char>>, cwd: Option<Seq<char>>) -> Option<
    Seq<Seq<char>>,
> {
    if first == seq!['~'] {
        match home {
            Some(h) => Some(dirs_of(h)),
            None => None,
        }
    } else if first.len() == 0 {
        Some(Seq::empty())
    } else {
        match cwd {
            Some(c) => {
                let d = dirs_of(c);
                if first == seq!['.'] {
                    Some(d)
                } else if is_parent(first) {
                    Some(
                        if d.len() > 0 {
                            d.drop_last()
                        } else {
                            d
                        },
                    )
                } else {
                    Some(d.push(first))
                }
            },
            None => None,
        }
    }
}

/// The absolute path that `cd arg` goes to, given the home and current
/// directories.
pub open spec fn resolve_path(arg: Seq<char>, home: Option<Seq<char>>, cwd: Option<Seq<char>>) -> Option<
    Seq<char>,
> {
    let parts = split(arg, '/');
    match start_dirs(parts[0], home, cwd) {
        Some(d) => Some(render(walk(d, parts.drop_first()))),
        None => None,
    }
}

/// Whether `p` is the one character `c`.
fn is_char(p: &Vec<char>, c: char) -> (r: bool)
    ensures
        r == (p@ == seq![c]),
{
    let r = p.len() == 1 && p[0] == c;
    assert(r ==> p@ =~= seq![c]);
    r
}

/// Whether `p` is `..`.
fn is_dot_dot(p: &Vec<char>) -> (r: bool)
    ensures
        r == is_parent(p@),
{
    let r = p.len() == 2 && p[0] == '.' && p[1] == '.';
    assert(r ==> p@ =~= seq!['.', '.']);
    r
}

/// The directories of the absolute path `p`.
fn path_dirs(p: &str) -> (r: Vec<Vec<char>>)
    ensures
        pieces_of(r@) == dirs_of(p@),
{
    let parts = split_chars(&chars_of(p), '/');
    let mut r: Vec<Vec<char>> = Vec::new();
    let mut i: usize = 0;
    assert(parts@.subrange(0, 0) =~= Seq::<Vec<char>>::empty());
    assert(pieces_of(parts@).subrange(0, 0) =~= Seq::<Seq<char>>::empty());
    assert(pieces_of(parts@).subrange(0, pieces_of(parts@).len() as int) =~= pieces_of(parts@));
    assert(pieces_of(r@) =~= Seq::<Seq<char>>::empty());
    while i < parts.len()
        invariant
            pieces_of(parts@) == split(p@, '/'),
            i <= parts@.len(),
            dirs_from(pieces_of(r@), pieces_of(parts@).subrange(i as int, parts@.len() as int))
                == dirs_of(p@),
        decreases parts.len() - i,
    {
        let part = &parts[i];
        let ghost rest = pieces_of(parts@).subrange(i as int, parts@.len() as int);
        assert(rest[0] == part@);
        assert(rest.drop_first() =~= pieces_of(parts@).subrange(i + 1, parts@.len() as int));
        let blank = part.len() == 0 || is_char(part, '.');
        if !blank {
            let ghost r0 = r@;
            r.push(copy_chars(part));
            assert(pieces_of(r@) =~= pieces_of(r0).push(part@));
        }
        i = i + 1;
    }
    r
}

/// Applies the segments `parts[from..]` to `dirs` as `walk` does.
fn walk_dirs(dirs: &mut Vec<Vec<char>>, parts: &Vec<Vec<char>>, from: usize)
    requires
        from <= parts@.len(),
    ensures
        pieces_of(final(dirs)@) == walk(
            pieces_of(old(dirs)@),
            pieces_of(parts@).subrange(from as int, parts@.len() as int),
        ),
{
    let mut i: usize = from;
    while i < parts.len()
        invariant
            from <= i <= parts@.len(),
            walk(pieces_of(dirs@), pieces_of(parts@).subrange(i as int, parts@.len() as int))
                == walk(
                pieces_of(old(dirs)@),
                pieces_of(parts@).subrange(from as int, parts@.len() as int),
            ),
        decreases parts.len() - i,
    {
        let part = &parts[i];
        let ghost rest = pieces_of(parts@).subrange(i as int, parts@.len() as int);
        assert(rest[0] == part@);
        assert(rest.drop_first() =~= pieces_of(parts@).subrange(i + 1, parts@.len() as int));
        let ghost d0 = dirs@;
        if is_dot_dot(part) {
            if dirs.len() > 0 {
                let _ = dirs.pop();
                assert(pieces_of(dirs@) =~= pieces_of(d0).drop_last());
            }
        } else if part.len() == 0 || is_char(part, '.') {
        } else {
            dirs.push(copy_chars(part));
            assert(pieces_of(dirs@) =~= pieces_of(d0).push(part@));
        }
        i = i + 1;
    }
}

/// Resolves a `cd` argument to an absolute path, given the home directory
/// and the current one where they are known; `None` when the argument needs
/// one that is not.
pub fn build_path(arg: &str, home: &Option<String>, cwd: &Option<String>) -> (r: Option<String>)
    ensures
        opt_view(r) == resolve_path(arg@, opt_view(*home), opt_view(*cwd)),
{
    let parts = split_chars(&chars_of(arg), '/');
    proof {
        crate::text::lemma_split_nonempty(arg@, '/');
    }
    let first = &parts[0];
    assert(pieces_of(parts@)[0] == first@);
    let mut dirs: Vec<Vec<char>>;
    if is_char(first, '~') {
        match home {
            Some(h) => {
                dirs = path_dirs(h.as_str());
            },
            None => {
                return None;
            },
        }
    } else if first.len() == 0 {
        dirs = Vec::new();
        assert(pieces_of(dirs@) =~= Seq::<Seq<char>>::empty());
    } else {
        match cwd {
            Some(c) => {
                dirs = path_dirs(c.as_str());
                let ghost d0 = dirs@;
                if is_char(first, '.') {
                } else if is_dot_dot(first) {
                    if dirs.len() > 0 {
                        let _ = dirs.pop();
                        assert(pieces_of(dirs@) =~= pieces_of(d0).drop_last());
                    }
                } else {
                    dirs.push(copy_chars(first));
                    assert(pieces_of(dirs@) =~= pieces_of(d0).push(first@));
                }
            },
            None => {
                return None;
            },
        }
    }
    assert(pieces_of(parts@).subrange(1, parts@.len() as int) =~= pieces_of(parts@).drop_first());
    walk_dirs(&mut dirs, &parts, 1);
    let mut v: Vec<char> = Vec::new();
    v.push('/');
    let mut i: usize = 0;
    assert(pieces_of(dirs@).subrange(0, 0) =~= Seq::<Seq<char>>::empty());
    assert(v@ =~= seq!['/'] + join(Seq::<Seq<char>>::empty(), seq!['/']));
    while i < dirs.len()
        invariant
            i <= dirs@.len(),
            v@ == seq!['/'] + join(pieces_of(dirs@).subrange(0, i as int), seq!['/']),
        decreases dirs.len() - i,
    {
        let ghost pre = pieces_of(dirs@).subrange(0, i as int);
        let ghost next = pieces_of(dirs@).subrange(0, i + 1);
        assert(next.drop_last() =~= pre);
        assert(next.last() == dirs@[i as int]@);
        if i > 0 {
            v.push('/');
        }
        let d = &dirs[i];
        let ghost v0 = v@;
        let mut k: usize = 0;
        while k < d.len()
            invariant
                k <= d@.len(),
                v@ == v0 + d@.subrange(0, k as int),
            decreases d.len() - k,
        {
            v.push(d[k]);
            assert(v@ =~= v0 + d@.subrange(0, k + 1));
            k = k + 1;
        }
        assert(d@.subrange(0, k as int) =~= d@);
        if i == 0 {
            assert(v@ =~= seq!['/'] + next[0]);
        } else {
            assert(v@ =~= seq!['/'] + (join(pre, seq!['/']) + seq!['/'] + next.last()));
        }
        i = i + 1;
    }
    assert(pieces_of(dirs@).subrange(0, i as int) =~= pieces_of(dirs@));
    Some(string_of(v.as_slice()))
}

/// Where `cd` goes: the home directory with no argument or `~`, else its
/// first argument resolved by `resolve_path`.
pub open spec fn cd_target(args: Seq<Seq<char>>, home: Option<Seq<char>>, cwd: Option<Seq<char>>) -> Option<
    Seq<char>,
> {
    if args.len() > 0 && args[0] != "~"@ {
        resolve_path(args[0], home, cwd)
    } else {
        home
    }
}

/// The directory that `cd args` changes to; `None` when it needs the home or
/// current directory and that is unknown.
pub fn change_directory_target(args: &Vec<String>, home: &Option<String>, cwd: &Option<String>) -> (r:
    Option<String>)
    ensures
        opt_view(r) == cd_target(words_of(args@), opt_view(*home), opt_view(*cwd)),
{
    if args.len() > 0 && !same_text(args[0].as_str(), "~") {
        build_path(args[0].as_str(), home, cwd)
    } else {
        home.clone()
    }
}

/// What a stage asks of the shell once its command is known: output to
/// print, a change of directory, an exit, or work on the history store.
#[derive(Clone, Debug)]
pub enum Action {
    /// Print this text on the stage's output.
    Print(String),
    /// Print this text on the stage's error output.
    PrintErr(String),
    /// Print the current directory.
    PrintCwd,
    /// Change to the directory that `change_directory_target` gives for the
    /// stage's arguments.
    ChangeDir,
    /// End the shell with this status.
    Exit(i32),
    /// Print what `type` says of this name, once it is classified.
    Describe(String),
    /// Work on the history store.
    History(HistoryArgs),
    /// Nothing: a program is run, not decided here.
    Nothing,
}

/// What running the stage `command_str args`, classified as `kind`, asks of
/// the shell.
pub fn decide(kind: &Command, command_str: &str, args: &Vec<String>) -> (r: Action)
    ensures
        match *kind {
            Command::Echo => r matches Action::Print(t) && t@ == echo_text(words_of(args@)),
            Command::Type => r matches Action::Describe(n) && n@ == (if args@.len() > 0 {
                args@[0]@
            } else {
                Seq::empty()
            }),
            Command::Pwd => r is PrintCwd,
            Command::Cd => r is ChangeDir,
            Command::Invalid => r matches Action::PrintErr(t) && t@ == command_str@
                + ": command not found\n"@,
            Command::Exit => r matches Action::Exit(c) && c as int == exit_status(words_of(args@)),
            Command::History => r matches Action::History(a) && history_args_match(
                a,
                words_of(args@),
            ),
            Command::Executable { .. } => r is Nothing,
        },
{
    match kind {
        Command::Echo => Action::Print(echo_line(args)),
        Command::Type => {
            if args.len() > 0 {
                Action::Describe(args[0].clone())
            } else {
                Action::Describe(string_of(Vec::<char>::new().as_slice()))
            }
        },
        Command::Pwd => Action::PrintCwd,
        Command::Cd => Action::ChangeDir,
        Command::Invalid => Action::PrintErr(not_found_line(command_str)),
        Command::Exit => Action::Exit(exit_code(args)),
        Command::History => Action::History(HistoryArgs::from_args(args)),
        Command::Executable { .. } => Action::Nothing,
    }
}

} // verus!
