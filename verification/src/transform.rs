//! Transforms: external commands, or chains of them, over page content.
//!
//! A transform names what to run, not how to run it. Running happens outside
//! the library; the [`TransformRun`] state machine fixes the order of the
//! commands and how each step's output is threaded into the next step.

use vstd::prelude::*;

use crate::error::Error;

verus! {

/// What `shell_words::split` yields for a command line: the argument
/// vector under POSIX word-splitting rules when the line is well formed,
/// and nothing when a quote is left unmatched.
pub uninterp spec fn shell_split_of(command: Seq<char>) -> Option<Seq<Seq<char>>>;

/// The view of a list of command strings.
pub open spec fn cmds_view(cmds: Seq<String>) -> Seq<Seq<char>> {
    Seq::new(cmds.len(), |i: int| cmds[i]@)
}

/// A command, or a pipeline of commands, that converts content from one
/// format to another. Each command reads the content on standard input and
/// writes the converted content on standard output.
#[derive(Debug, PartialEq, Eq)]
pub enum Transform {
    /// One command.
    Single(String),
    /// Several commands; the output of each is piped into the next.
    Chain(Vec<String>),
}

/// The abstract value of a [`Transform`].
pub enum TransformSpec {
    /// One command line.
    Single(Seq<char>),
    /// The command lines of a pipeline, in order.
    Chain(Seq<Seq<char>>),
}

impl View for Transform {
    type V = TransformSpec;

    open spec fn view(&self) -> TransformSpec {
        match self {
            Transform::Single(c) => TransformSpec::Single(c@),
            Transform::Chain(cs) => TransformSpec::Chain(cmds_view(cs@)),
        }
    }
}

/// The command lines a transform runs, in order: one for a single command,
/// the whole pipeline for a chain.
pub open spec fn commands_of(t: TransformSpec) -> Seq<Seq<char>> {
    match t {
        TransformSpec::Single(c) => seq![c],
        TransformSpec::Chain(cs) => cs,
    }
}

impl Transform {
    /// A fresh transform with the same commands.
    pub fn duplicate(&self) -> (r: Transform)
        ensures
            r@ == self@,
    {
        match self {
            Transform::Single(c) => Transform::Single(c.clone()),
            Transform::Chain(cs) => {
                let copy = clone_strings(cs);
                proof {
                    assert(cmds_view(copy@) =~= cmds_view(cs@));
                }
                Transform::Chain(copy)
            },
        }
    }

    /// The commands this transform runs, in order.
    pub fn commands(&self) -> (r: Vec<String>)
        ensures
            cmds_view(r@) == commands_of(self@),
    {
        match self {
            Transform::Single(c) => {
                let mut v: Vec<String> = Vec::new();
                v.push(c.clone());
                proof {
                    assert(cmds_view(v@) =~= commands_of(self@));
                }
                v
            },
            Transform::Chain(cs) => {
                let copy = clone_strings(cs);
                proof {
                    assert(cmds_view(copy@) =~= cmds_view(cs@));
                }
                copy
            },
        }
    }
}

/// The command lines joined by ` | ` into one line.
pub open spec fn joined_cmds(cs: Seq<Seq<char>>) -> Seq<char>
    decreases cs.len(),
{
    if cs.len() == 0 {
        Seq::empty()
    } else if cs.len() == 1 {
        cs[0]
    } else {
        joined_cmds(cs.drop_last()) + seq![' ', '|', ' '] + cs.last()
    }
}

impl Transform {
    /// The transform for log messages: its commands joined by ` | `,
    /// quoted as `` `...' ``.
    pub fn describe(&self) -> (r: String)
        ensures
            r@ == seq!['`'] + joined_cmds(commands_of(self@)) + seq!['\''],
    {
        let cmds = self.commands();
        let mut s = String::new();
        s.append("`");
        proof {
            reveal_strlit("`");
            assert("`"@ =~= seq!['`']);
            assert(joined_cmds(cmds_view(cmds@).take(0int)) =~= Seq::<char>::empty());
            assert(s@ =~= seq!['`'] + joined_cmds(cmds_view(cmds@).take(0int)));
        }
        let mut i: usize = 0;
        while i < cmds.len()
            invariant
                i <= cmds@.len(),
                cmds_view(cmds@) == commands_of(self@),
                s@ == seq!['`'] + joined_cmds(cmds_view(cmds@).take(i as int)),
            decreases cmds@.len() - i,
        {
            if i > 0 {
                s.append(" | ");
                proof {
                    reveal_strlit(" | ");
                    assert(" | "@ =~= seq![' ', '|', ' ']);
                }
            }
            s.append(cmds[i].as_str());
            proof {
                let cv = cmds_view(cmds@);
                assert(cv[i as int] == cmds@[i as int]@);
                assert(cv.take(i + 1).drop_last() =~= cv.take(i as int));
                assert(cv.take(i + 1).last() == cv[i as int]);
                if i == 0 {
                    assert(s@ =~= seq!['`'] + joined_cmds(cv.take(1int)));
                } else {
                    assert(s@ =~= seq!['`'] + joined_cmds(cv.take(i + 1)));
                }
            }
            i = i + 1;
        }
        proof {
            assert(cmds_view(cmds@).take(cmds@.len() as int) =~= cmds_view(cmds@));
        }
        s.append("'");
        proof {
            reveal_strlit("'");
            assert("'"@ =~= seq!['\'']);
        }
        s
    }
}

/// A fresh list of the same command strings.
fn clone_strings(v: &Vec<String>) -> (r: Vec<String>)
    ensures
        r@.len() == v@.len(),
        forall|i: int| 0 <= i < v@.len() ==> r@[i]@ == v@[i]@,
{
    let mut r: Vec<String> = Vec::new();
    let mut i: usize = 0;
    while i < v.len()
        invariant
            i <= v@.len(),
            r@.len() == i,
            forall|j: int| 0 <= j < i ==> r@[j]@ == v@[j]@,
        decreases v@.len() - i,
    {
        r.push(v[i].clone());
        i = i + 1;
    }
    r
}

/// Splits one command line into its argument vector, as a POSIX shell
/// would. A malformed command line is a build error naming the command.
pub fn parse_command(command: &String) -> (r: Result<Vec<String>, Error>)
    ensures
        match r {
            Ok(v) => shell_split_of(command@) == Some(cmds_view(v@)),
            Err(e) => shell_split_of(command@) is None && (e matches Error::Shell {
                command: c,
            } && c@ == command@),
        },
{
    match shell_split(command.as_str()) {
        Some(v) => Ok(v),
        None => Err(Error::Shell { command: command.clone() }),
    }
}

/// Relies on `shell_words::split`: POSIX-style word splitting of one
/// command line, a function of the string alone, which fails exactly when
/// a quote is left unmatched.
#[verifier::external_body]
fn shell_split(command: &str) -> (r: Option<Vec<String>>)
    ensures
        match r {
            Some(v) => shell_split_of(command@) == Some(cmds_view(v@)),
            None => shell_split_of(command@) is None,
        },
{
    shell_words::split(command).ok()
}

/// The bytes fed to step `i` of a pipeline: the original input for the
/// first step, and the previous step's output after that.
pub open spec fn step_input(input: Seq<u8>, outputs: Seq<Seq<u8>>, i: int) -> Seq<u8> {
    if i == 0 {
        input
    } else {
        outputs[i - 1]
    }
}

/// The content a pipeline ends with: the last output, or the untouched
/// input when nothing ran.
pub open spec fn run_result(input: Seq<u8>, outputs: Seq<Seq<u8>>) -> Seq<u8> {
    if outputs.len() == 0 {
        input
    } else {
        outputs.last()
    }
}

/// One transform being applied: the commands still to run, how many have
/// run, and the content as produced so far. The caller runs each pending
/// command over the current content and feeds its output back in.
pub struct TransformRun {
    /// The command lines of the transform, in order.
    pub commands: Vec<String>,
    /// How many commands have completed.
    pub index: usize,
    /// The content after the commands completed so far.
    pub content: Vec<u8>,
    /// The bytes the run started from.
    pub input: Ghost<Seq<u8>>,
    /// The outputs of the completed commands, in order.
    pub outputs: Ghost<Seq<Seq<u8>>>,
}

impl TransformRun {
    /// The run's bookkeeping: one output per completed command, and the
    /// current content is the fold of the outputs over the input.
    pub open spec fn wf(&self) -> bool {
        &&& self.index == self.outputs@.len()
        &&& self.index <= self.commands@.len()
        &&& self.content@ == run_result(self.input@, self.outputs@)
    }

    /// Starts a run of `t` over `input`: no command has completed yet.
    pub fn new(t: &Transform, input: Vec<u8>) -> (r: TransformRun)
        ensures
            r.wf(),
            cmds_view(r.commands@) == commands_of(t@),
            r.index == 0,
            r.input@ == input@,
            r.outputs@ == Seq::<Seq<u8>>::empty(),
            r.content@ == input@,
    {
        let ghost gi = input@;
        TransformRun {
            commands: t.commands(),
            index: 0,
            content: input,
            input: Ghost(gi),
            outputs: Ghost(Seq::empty()),
        }
    }

    /// The next command to run over the current content, if any is left.
    pub fn pending(&self) -> (r: Option<&String>)
        ensures
            match r {
                Some(c) => self.index < self.commands@.len() && c@ == cmds_view(
                    self.commands@,
                )[self.index as int],
                None => self.index >= self.commands@.len(),
            },
    {
        if self.index < self.commands.len() {
            Some(&self.commands[self.index])
        } else {
            None
        }
    }

    /// Whether every command has completed.
    pub fn is_finished(&self) -> (r: bool)
        ensures
            r == (self.index >= self.commands@.len()),
    {
        self.index >= self.commands.len()
    }

    /// Records the output of the pending command: the run moves one step,
    /// and the output becomes the current content.
    pub fn advance(&mut self, output: Vec<u8>)
        requires
            old(self).wf(),
            old(self).index < old(self).commands@.len(),
        ensures
            final(self).wf(),
            final(self).commands@ == old(self).commands@,
            final(self).index == old(self).index + 1,
            final(self).input@ == old(self).input@,
            final(self).outputs@ == old(self).outputs@.push(output@),
            final(self).content@ == output@,
    {
        let ghost out = output@;
        let n = self.commands.len();
        proof {
            assert(self.index < n);
        }
        self.index = self.index + 1;
        self.content = output;
        proof {
            self.outputs@ = self.outputs@.push(out);
        }
    }

    /// Gives up the run, yielding the final content.
    pub fn into_content(self) -> (r: Vec<u8>)
        ensures
            r@ == self.content@,
    {
        self.content
    }
}

/// A chain runs strictly sequentially. Splitting a pipeline anywhere gives
/// the same result as running the first part to completion and feeding
/// what it produced into the second part: each step of the combined run
/// reads exactly what the step before it wrote, and the combined result is
/// the second part's result over the first part's result.
pub proof fn lemma_chain_is_sequential(
    input: Seq<u8>,
    outs1: Seq<Seq<u8>>,
    outs2: Seq<Seq<u8>>,
)
    ensures
        forall|i: int|
            0 <= i <= outs1.len() + outs2.len() ==> #[trigger] step_input(input, outs1 + outs2, i)
                == run_result(input, (outs1 + outs2).take(i)),
        forall|i: int|
            0 <= i < outs1.len() ==> step_input(input, outs1 + outs2, i) == step_input(
                input,
                outs1,
                i,
            ),
        forall|i: int|
            outs1.len() <= i <= outs1.len() + outs2.len() ==> step_input(input, outs1 + outs2, i)
                == step_input(run_result(input, outs1), outs2, i - outs1.len()),
        run_result(input, outs1 + outs2) == run_result(run_result(input, outs1), outs2),
{
    let all = outs1 + outs2;
    assert forall|i: int|
        0 <= i <= outs1.len() + outs2.len() implies #[trigger] step_input(input, all, i)
        == run_result(input, all.take(i)) by {
        if i > 0 {
            assert(all.take(i).last() == all[i - 1]);
        }
    }
    if outs2.len() == 0 {
        assert(all =~= outs1);
    } else {
        assert(all.last() == outs2.last());
    }
}

} // verus!
