//! The pipeline parser: a line cut into stages at `|`, each stage lexed into
//! a command, its arguments and at most one redirection.

use vstd::prelude::*;
use crate::args::{tokenize, tokenize_chars, words_of};
use crate::text::{chars_of, pieces_of, same_text, split, split_chars, string_of};

verus! {

/// Why a line could not be parsed.
#[derive(Clone, Copy, Debug, PartialEq, Eq, Structural)]
pub enum ParseError {
    /// A stage holds no word.
    EmptyStage,
    /// A redirection operator is the last word of its stage.
    MissingRedirectTarget,
}

impl ParseError {
    /// The text that reports the error.
    pub fn message(&self) -> (r: String)
        ensures
            r@ == match *self {
                ParseError::EmptyStage => "Empty command in pipeline"@,
                ParseError::MissingRedirectTarget => "No file specified for redirection"@,
            },
    {
        match self {
            ParseError::EmptyStage => string_of(chars_of("Empty command in pipeline").as_slice()),
            ParseError::MissingRedirectTarget => string_of(
                chars_of("No file specified for redirection").as_slice(),
            ),
        }
    }
}

/// Where a stage sends its output or its errors: a file, opened to append or
/// to truncate.
#[derive(Clone, Debug)]
pub struct Redirection {
    pub path: String,
    pub stdout: bool,
    pub stderr: bool,
    pub append: bool,
}

/// One stage of a pipeline: the command word, its arguments with the
/// redirection taken out, and the redirection.
#[derive(Clone, Debug)]
pub struct Stage {
    pub command_str: String,
    pub args: Vec<String>,
    pub redirect: Option<Redirection>,
}

/// A stage as text: the command, the arguments and, if any, the redirection
/// as (path, stdout, stderr, append).
pub type StageModel = (Seq<char>, Seq<Seq<char>>, Option<(Seq<char>, bool, bool, bool)>);

/// The stage as text.
pub open spec fn stage_view(s: Stage) -> StageModel {
    (
        s.command_str@,
        words_of(s.args@),
        match s.redirect {
            Some(r) => Some((r.path@, r.stdout, r.stderr, r.append)),
            None => None,
        },
    )
}

/// The redirection that a word is the operator of, as (stdout, stderr,
/// append).
pub open spec fn redirect_op(t: Seq<char>) -> Option<(bool, bool, bool)> {
    if t == ">"@ || t == "1>"@ {
        Some((true, false, false))
    } else if t == ">>"@ || t == "1>>"@ {
        Some((true, false, true))
    } else if t == "2>"@ {
        Some((false, true, false))
    } else if t == "2>>"@ {
        Some((false, true, true))
    } else if t == "&>"@ {
        Some((true, true, false))
    } else if t == "&>>"@ {
        Some((true, true, true))
    } else {
        None
    }
}

/// The redirection that `t` is the operator of, if any.
pub fn redirect_kind(t: &str) -> (r: Option<(bool, bool, bool)>)
    ensures
        r == redirect_op(t@),
{
    if same_text(t, ">") || same_text(t, "1>") {
        Some((true, false, false))
    } else if same_text(t, ">>") || same_text(t, "1>>") {
        Some((true, false, true))
    } else if same_text(t, "2>") {
        Some((false, true, false))
    } else if same_text(t, "2>>") {
        Some((false, true, true))
    } else if same_text(t, "&>") {
        Some((true, true, false))
    } else if same_text(t, "&>>") {
        Some((true, true, true))
    } else {
        None
    }
}

/// The index of the first redirection operator in `ws[i..]`, or `ws.len()`.
pub open spec fn first_op(ws: Seq<Seq<char>>, i: nat) -> nat
    decreases ws.len() - i,
{
    if i >= ws.len() {
        ws.len()
    } else if redirect_op(ws[i as int]) is Some {
        i
    } else {
        first_op(ws, i + 1)
    }
}

/// A stage parsed from its text: the first word is the command; the first
/// redirection operator among the rest and the word after it (the target)
/// are taken out of the arguments.
pub open spec fn stage_model(input: Seq<char>) -> Result<StageModel, ParseError> {
    let ws = tokenize(input);
    if ws.len() == 0 {
        Err(ParseError::EmptyStage)
    } else {
        let rest = ws.drop_first();
        let k = first_op(rest, 0);
        if k >= rest.len() {
            Ok((ws[0], rest, None))
        } else if k + 1 == rest.len() {
            Err(ParseError::MissingRedirectTarget)
        } else {
            let op = redirect_op(rest[k as int])->Some_0;
            Ok(
                (
                    ws[0],
                    rest.subrange(0, k as int) + rest.subrange(k + 2int, rest.len() as int),
                    Some((rest[k + 1int], op.0, op.1, op.2)),
                ),
            )
        }
    }
}

proof fn lemma_first_op_bounds(ws: Seq<Seq<char>>, i: nat)
    requires
        i <= ws.len(),
    ensures
        i <= first_op(ws, i) <= ws.len(),
        first_op(ws, i) < ws.len() ==> redirect_op(ws[first_op(ws, i) as int]) is Some,
    decreases ws.len() - i,
{
    if i < ws.len() && redirect_op(ws[i as int]) is None {
        lemma_first_op_bounds(ws, i + 1);
    }
}

/// Copies `ws[from..to]` to the end of `out`.
fn push_words(out: &mut Vec<String>, ws: &Vec<String>, from: usize, to: usize)
    requires
        from <= to <= ws@.len(),
    ensures
        words_of(final(out)@) == words_of(old(out)@) + words_of(ws@).subrange(from as int, to as int),
{
    let mut k: usize = from;
    assert(words_of(out@) =~= words_of(old(out)@) + words_of(ws@).subrange(from as int, from as int));
    while k < to
        invariant
            from <= k <= to <= ws@.len(),
            words_of(out@) == words_of(old(out)@) + words_of(ws@).subrange(from as int, k as int),
        decreases to - k,
    {
        let ghost o = out@;
        out.push(ws[k].clone());
        assert(words_of(out@) =~= words_of(o).push(ws@[k as int]@));
        assert(words_of(old(out)@) + words_of(ws@).subrange(from as int, k + 1) =~= (words_of(
            old(out)@,
        ) + words_of(ws@).subrange(from as int, k as int)).push(ws@[k as int]@));
        k = k + 1;
    }
}

/// Parses one stage given as characters.
fn parse_stage_chars(input: &Vec<char>) -> (r: Result<Stage, ParseError>)
    ensures
        match stage_model(input@) {
            Ok(m) => r matches Ok(s) && stage_view(s) == m,
            Err(e) => r == Err::<Stage, ParseError>(e),
        },
{
    let ws = tokenize_chars(input);
    let ghost w = words_of(ws@);
    if ws.len() == 0 {
        return Err(ParseError::EmptyStage);
    }
    let ghost rest = w.drop_first();
    let n = ws.len();
    let mut k: usize = 1;
    while k < n && redirect_kind(ws[k].as_str()).is_none()
        invariant
            1 <= k <= n == ws@.len(),
            w == words_of(ws@),
            rest == w.drop_first(),
            first_op(rest, (k - 1) as nat) == first_op(rest, 0),
        decreases n - k,
    {
        assert(rest[k - 1] == ws@[k as int]@);
        k = k + 1;
    }
    proof {
        lemma_first_op_bounds(rest, 0);
        if k < n {
            assert(rest[k - 1] == ws@[k as int]@);
        }
    }
    let command_str = ws[0].clone();
    let mut args: Vec<String> = Vec::new();
    assert(words_of(args@) =~= Seq::<Seq<char>>::empty());
    if k >= n {
        push_words(&mut args, &ws, 1, n);
        assert(w.subrange(1, n as int) =~= rest);
        assert(Seq::<Seq<char>>::empty() + rest =~= rest);
        return Ok(Stage { command_str, args, redirect: None });
    }
    if k + 1 == n {
        return Err(ParseError::MissingRedirectTarget);
    }
    assert(rest[k - 1] == ws@[k as int]@);
    let op = redirect_kind(ws[k].as_str());
    let (o, e, a) = match op {
        Some(t) => t,
        None => (false, false, false),
    };
    push_words(&mut args, &ws, 1, k);
    push_words(&mut args, &ws, k + 1 + 1, n);
    assert(w.subrange(1, k as int) =~= rest.subrange(0, k - 1));
    assert(w.subrange(k + 2, n as int) =~= rest.subrange(k + 1, rest.len() as int));
    assert(Seq::<Seq<char>>::empty() + rest.subrange(0, k - 1) =~= rest.subrange(0, k - 1));
    assert(rest[k as int] == ws@[k + 1]@);
    let path = ws[k + 1].clone();
    Ok(
        Stage {
            command_str,
            args,
            redirect: Some(Redirection { path, stdout: o, stderr: e, append: a }),
        },
    )
}

/// Parses one stage of a pipeline.
pub fn parse_stage(input: &str) -> (r: Result<Stage, ParseError>)
    ensures
        match stage_model(input@) {
            Ok(m) => r matches Ok(s) && stage_view(s) == m,
            Err(e) => r == Err::<Stage, ParseError>(e),
        },
{
    parse_stage_chars(&chars_of(input))
}

/// The stages of the fragments, in order, or the error of the first fragment
/// that does not parse.
pub open spec fn stages_model(frags: Seq<Seq<char>>) -> Result<Seq<StageModel>, ParseError>
    decreases frags.len(),
{
    if frags.len() == 0 {
        Ok(Seq::empty())
    } else {
        match stages_model(frags.drop_last()) {
            Err(e) => Err(e),
            Ok(ms) => match stage_model(frags.last()) {
                Ok(m) => Ok(ms.push(m)),
                Err(e) => Err(e),
            },
        }
    }
}

/// A line parsed as a pipeline: no stage for an empty line, else one stage
/// per piece between `|` characters.
pub open spec fn pipeline_model(input: Seq<char>) -> Result<Seq<StageModel>, ParseError> {
    if input.len() == 0 {
        Ok(Seq::empty())
    } else {
        stages_model(split(input, '|'))
    }
}

/// The stages as text.
pub open spec fn stages_view(v: Seq<Stage>) -> Seq<StageModel> {
    v.map_values(|s: Stage| stage_view(s))
}

proof fn lemma_stages_err_extends(frags: Seq<Seq<char>>, j: int, e: ParseError)
    requires
        0 <= j <= frags.len(),
        stages_model(frags.subrange(0, j)) == Err::<Seq<StageModel>, ParseError>(e),
    ensures
        stages_model(frags) == Err::<Seq<StageModel>, ParseError>(e),
    decreases frags.len() - j,
{
    if j < frags.len() {
        let p = frags.subrange(0, j + 1);
        assert(p.drop_last() =~= frags.subrange(0, j));
        lemma_stages_err_extends(frags, j + 1, e);
    } else {
        assert(frags.subrange(0, j) =~= frags);
    }
}

/// Parses a line into the stages of a pipeline: none for an empty line, else
/// one per piece between `|` characters, or the error of the first piece
/// that does not parse.
pub fn parse_commands(input: &str) -> (r: Result<Vec<Stage>, ParseError>)
    ensures
        match pipeline_model(input@) {
            Ok(ms) => r matches Ok(v) && stages_view(v@) == ms,
            Err(e) => r == Err::<Vec<Stage>, ParseError>(e),
        },
{
    let cs = chars_of(input);
    let mut out: Vec<Stage> = Vec::new();
    if cs.len() == 0 {
        assert(stages_view(out@) =~= Seq::<StageModel>::empty());
        return Ok(out);
    }
    let frags = split_chars(&cs, '|');
    let ghost fs = split(input@, '|');
    let mut i: usize = 0;
    assert(fs.subrange(0, 0) =~= Seq::<Seq<char>>::empty());
    assert(stages_view(out@) =~= Seq::<StageModel>::empty());
    while i < frags.len()
        invariant
            pieces_of(frags@) == fs,
            fs == split(input@, '|'),
            input@.len() > 0,
            i <= frags@.len(),
            stages_model(fs.subrange(0, i as int)) == Ok::<Seq<StageModel>, ParseError>(
                stages_view(out@),
            ),
        decreases frags.len() - i,
    {
        assert(fs.subrange(0, i + 1).drop_last() =~= fs.subrange(0, i as int));
        assert(fs.subrange(0, i + 1).last() == frags@[i as int]@);
        match parse_stage_chars(&frags[i]) {
            Ok(st) => {
                let ghost o = out@;
                out.push(st);
                assert(stages_view(out@) =~= stages_view(o).push(stage_view(st)));
            },
            Err(e) => {
                proof {
                    let f = fs.subrange(0, i + 1);
                    assert(stage_model(f.last()) == Err::<StageModel, ParseError>(e));
                    assert(stages_model(f) == Err::<Seq<StageModel>, ParseError>(e));
                    lemma_stages_err_extends(fs, i + 1, e);
                }
                return Err(e);
            },
        }
        i = i + 1;
    }
    assert(fs.subrange(0, i as int) =~= fs);
    Ok(out)
}

/// Where a stage's error output goes.
#[derive(Clone, Debug)]
pub enum ErrorSink {
    /// The shell's own error output.
    Terminal,
    /// The file that the stage's output goes to.
    OutputFile,
    /// A file of its own, opened to append or to truncate.
    File { path: String, append: bool },
}

impl Stage {
    /// Whether the stage's output goes to a file.
    pub fn redirects_stdout(&self) -> (r: bool)
        ensures
            r == (self.redirect matches Some(d) && d.stdout),
    {
        match &self.redirect {
            Some(d) => d.stdout,
            None => false,
        }
    }

    /// Where the stage's error output goes: to the shell's own unless
    /// redirected; to the output file when both go to the same one; else to
    /// the target, opened on its own.
    pub fn error_sink(&self) -> (r: ErrorSink)
        ensures
            match self.redirect {
                Some(d) => if !d.stderr {
                    r is Terminal
                } else if d.stdout {
                    r is OutputFile
                } else {
                    r matches ErrorSink::File { path, append } && path@ == d.path@ && append
                        == d.append
                },
                None => r is Terminal,
            },
    {
        match &self.redirect {
            Some(d) => if !d.stderr {
                ErrorSink::Terminal
            } else if d.stdout {
                ErrorSink::OutputFile
            } else {
                ErrorSink::File { path: d.path.clone(), append: d.append }
            },
            None => ErrorSink::Terminal,
        }
    }
}

} // verus!
