//! Scripts of JNI commands and their execution.
//!
//! A script lists commands in the order in which they are to be performed. A
//! command may use what earlier commands yielded; when one of those was not
//! performed or failed, the command is passed over. A failed essential command
//! ends the script. Talking to the Java VM is left to the caller: a run says
//! which command is next and takes the reply.

use vstd::prelude::*;

verus! {

/// An argument of a Java call.
#[derive(Clone, Copy, Debug, PartialEq, Eq)]
pub enum Arg {
    /// The object that the command with this number yielded.
    Object(usize),
    /// The boolean `true`.
    True,
    /// The null reference.
    Null,
}

/// The arguments of a Java call.
#[derive(Clone, Copy, Debug, PartialEq, Eq)]
pub enum Args {
    Zero,
    One(Arg),
    Two(Arg, Arg),
}

/// What a method call yields.
#[derive(Clone, Copy, Debug, PartialEq, Eq)]
pub enum Returns {
    Nothing,
    Object,
    Bool,
}

/// One thing to do. Numbers name earlier commands of the script and stand for
/// what they yielded.
#[derive(Clone, Copy, Debug, PartialEq, Eq)]
pub enum Op {
    /// Opens a local reference frame with room for so many references.
    PushLocalFrame(i32),
    /// Closes the local reference frame.
    PopLocalFrame,
    /// Yields the view of a widget handle; fails when the handle has none.
    GetWidget(i64),
    /// Yields the activity.
    GetActivity,
    /// Yields a class.
    FindClass(&'static str),
    /// Yields a new object.
    NewObject { class: &'static str, sig: &'static str, args: Args },
    /// Yields a Java string with the script's text.
    NewString,
    /// Yields a global reference to an object.
    NewGlobalRef(usize),
    /// Registers a global reference as a widget; yields its handle.
    RegisterWidget(usize),
    /// Calls a method of an object.
    CallMethod {
        object: usize,
        name: &'static str,
        sig: &'static str,
        args: Args,
        returns: Returns,
    },
    /// Calls a static method of a class, without parameters, that yields an
    /// object.
    CallStaticMethod { of: usize, name: &'static str, sig: &'static str },
    /// Yields the empty string as a value of the running program.
    BoxEmptyString,
    /// Yields the closure that a value points to; a null pointer counts as
    /// failure.
    ClosurePointer(u64),
    /// Calls a closure with one argument.
    CallClosure { closure: usize, arg: usize },
}

/// A command of a script.
#[derive(Clone, Copy, Debug, PartialEq, Eq)]
pub struct Command {
    pub op: Op,
    /// An earlier command that has to succeed though nothing of it is used.
    pub only_if: Option<usize>,
    /// Whether failure ends the script.
    pub essential: bool,
}

/// A list of commands and the text that their Java string holds.
pub struct Script {
    pub text: String,
    pub commands: Vec<Command>,
}

/// The outcome of performing a command.
#[derive(Clone, Copy, Debug, PartialEq, Eq)]
pub enum Reply {
    /// It failed.
    Failed,
    /// It succeeded; an object that it yielded is kept under its number.
    Done,
    /// It yielded a boolean.
    Bool(bool),
    /// It yielded a widget handle.
    Handle(i64),
    /// It yielded a pointer, which is kept under its number.
    Pointer(u64),
}

/// The command that gave the reply succeeded and what it yielded is not null.
pub open spec fn succeeded(reply: Reply) -> bool {
    match reply {
        Reply::Failed => false,
        Reply::Pointer(p) => p != 0,
        _ => true,
    }
}

/// Command `i` is among those before which it is used, and succeeded.
pub open spec fn yielded(ok: Seq<bool>, i: usize) -> bool {
    i < ok.len() && ok[i as int]
}

/// The argument is at hand.
pub open spec fn arg_ready(arg: Arg, ok: Seq<bool>) -> bool {
    match arg {
        Arg::Object(i) => yielded(ok, i),
        _ => true,
    }
}

/// All arguments are at hand.
pub open spec fn args_ready(args: Args, ok: Seq<bool>) -> bool {
    match args {
        Args::Zero => true,
        Args::One(a) => arg_ready(a, ok),
        Args::Two(a, b) => arg_ready(a, ok) && arg_ready(b, ok),
    }
}

/// Everything that the operation uses is at hand.
pub open spec fn op_ready(op: Op, ok: Seq<bool>) -> bool {
    match op {
        Op::NewObject { args, .. } => args_ready(args, ok),
        Op::NewGlobalRef(i) => yielded(ok, i),
        Op::RegisterWidget(i) => yielded(ok, i),
        Op::CallMethod { object, args, .. } => yielded(ok, object) && args_ready(args, ok),
        Op::CallStaticMethod { of, .. } => yielded(ok, of),
        Op::CallClosure { closure, arg } => yielded(ok, closure) && yielded(ok, arg),
        _ => true,
    }
}

/// The command is to be performed after commands with the outcomes `ok`.
pub open spec fn command_ready(command: Command, ok: Seq<bool>) -> bool {
    op_ready(command.op, ok) && (match command.only_if {
        Some(i) => yielded(ok, i),
        None => true,
    })
}

/// Where a run stands.
#[verifier::ext_equal]
pub struct Progress {
    /// For each command that was dealt with, whether it was performed and
    /// succeeded.
    pub ok: Seq<bool>,
    /// A local reference frame is open.
    pub frame: bool,
    /// An essential command failed.
    pub stopped: bool,
    /// The last boolean or handle that a command yielded.
    pub result: int,
}

/// Before the first command.
pub open spec fn start() -> Progress {
    Progress { ok: Seq::empty(), frame: false, stopped: false, result: 0 }
}

/// The command at which the progress stands is to be performed.
pub open spec fn at_command(commands: Seq<Command>, p: Progress) -> bool {
    !p.stopped && p.ok.len() < commands.len() && command_ready(commands[p.ok.len() as int], p.ok)
}

/// After the command was passed over.
pub open spec fn passed_over(p: Progress) -> Progress {
    Progress { ok: p.ok.push(false), ..p }
}

/// After the command was performed and gave `reply`. The frame counts as open
/// or closed whether or not the Java VM agreed.
pub open spec fn answered(command: Command, p: Progress, reply: Reply) -> Progress {
    Progress {
        ok: p.ok.push(succeeded(reply)),
        frame: match command.op {
            Op::PushLocalFrame(_) => true,
            Op::PopLocalFrame => false,
            _ => p.frame,
        },
        stopped: command.essential && !succeeded(reply),
        result: match (command.op, reply) {
            (Op::CallMethod { returns: Returns::Bool, .. }, Reply::Bool(b)) => if b {
                1
            } else {
                0
            },
            (Op::RegisterWidget(_), Reply::Handle(h)) => h as int,
            _ => p.result,
        },
    }
}

/// The progress at the next command to be performed, or at the end.
pub open spec fn settled(commands: Seq<Command>, p: Progress) -> Progress
    decreases commands.len() - p.ok.len(),
{
    if p.stopped || p.ok.len() >= commands.len() || at_command(commands, p) {
        p
    } else {
        settled(commands, passed_over(p))
    }
}

/// What is to be done next: the command at which the progress stands; after a
/// failed essential command, only to close an open frame.
pub open spec fn wanted(commands: Seq<Command>, p: Progress) -> Option<Op> {
    if p.stopped {
        if p.frame {
            Some(Op::PopLocalFrame)
        } else {
            None
        }
    } else if p.ok.len() < commands.len() {
        Some(commands[p.ok.len() as int].op)
    } else {
        None
    }
}

fn has_yielded(ok: &Vec<bool>, i: usize) -> (r: bool)
    ensures
        r == yielded(ok@, i),
{
    i < ok.len() && ok[i]
}

fn is_arg_ready(arg: Arg, ok: &Vec<bool>) -> (r: bool)
    ensures
        r == arg_ready(arg, ok@),
{
    match arg {
        Arg::Object(i) => has_yielded(ok, i),
        _ => true,
    }
}

fn are_args_ready(args: Args, ok: &Vec<bool>) -> (r: bool)
    ensures
        r == args_ready(args, ok@),
{
    match args {
        Args::Zero => true,
        Args::One(a) => is_arg_ready(a, ok),
        Args::Two(a, b) => is_arg_ready(a, ok) && is_arg_ready(b, ok),
    }
}

fn is_op_ready(op: Op, ok: &Vec<bool>) -> (r: bool)
    ensures
        r == op_ready(op, ok@),
{
    match op {
        Op::NewObject { args, .. } => are_args_ready(args, ok),
        Op::NewGlobalRef(i) => has_yielded(ok, i),
        Op::RegisterWidget(i) => has_yielded(ok, i),
        Op::CallMethod { object, args, .. } => has_yielded(ok, object) && are_args_ready(args, ok),
        Op::CallStaticMethod { of, .. } => has_yielded(ok, of),
        Op::CallClosure { closure, arg } => has_yielded(ok, closure) && has_yielded(ok, arg),
        _ => true,
    }
}

fn is_command_ready(command: Command, ok: &Vec<bool>) -> (r: bool)
    ensures
        r == command_ready(command, ok@),
{
    is_op_ready(command.op, ok) && (match command.only_if {
        Some(i) => has_yielded(ok, i),
        None => true,
    })
}

/// A script that is being carried out.
pub struct Run {
    script: Script,
    ok: Vec<bool>,
    frame: bool,
    stopped: bool,
    result: i64,
}

impl Run {
    /// Where the run stands.
    pub closed spec fn progress(&self) -> Progress {
        Progress {
            ok: self.ok@,
            frame: self.frame,
            stopped: self.stopped,
            result: self.result as int,
        }
    }

    /// The commands of the script.
    pub closed spec fn commands(&self) -> Seq<Command> {
        self.script.commands@
    }

    /// The text of the script.
    pub closed spec fn text(&self) -> Seq<char> {
        self.script.text@
    }

    /// Nothing is left to do.
    pub open spec fn done(&self) -> bool {
        if self.progress().stopped {
            !self.progress().frame
        } else {
            self.progress().ok.len() >= self.commands().len()
        }
    }

    /// Something is to be done, and everything that it uses is at hand.
    pub open spec fn awaits_reply(&self) -> bool {
        if self.progress().stopped {
            self.progress().frame
        } else {
            at_command(self.commands(), self.progress())
        }
    }

    /// A run at the start of `script`.
    pub fn new(script: Script) -> (run: Run)
        ensures
            run.progress() == start(),
            run.commands() == script.commands@,
            run.text() == script.text@,
    {
        let run = Run { script, ok: Vec::new(), frame: false, stopped: false, result: 0 };
        assert(run.progress() =~= start());
        run
    }

    /// The text of the script.
    pub fn script_text(&self) -> (text: &str)
        ensures
            text@ == self.text(),
    {
        self.script.text.as_str()
    }

    /// The number under which what the next command yields is kept.
    pub fn number(&self) -> (n: usize)
        ensures
            n == self.progress().ok.len(),
    {
        self.ok.len()
    }

    /// Passes over the commands that lack something they use, and gives what is
    /// to be done next, `None` at the end.
    pub fn next(&mut self) -> (op: Option<Op>)
        ensures
            final(self).commands() == old(self).commands(),
            final(self).text() == old(self).text(),
            final(self).progress() == settled(old(self).commands(), old(self).progress()),
            op == wanted(final(self).commands(), final(self).progress()),
            op is Some ==> final(self).awaits_reply(),
            op is None ==> final(self).done(),
    {
        while !self.stopped && self.ok.len() < self.script.commands.len() && !is_command_ready(
            self.script.commands[self.ok.len()],
            &self.ok,
        )
            invariant
                self.commands() == old(self).commands(),
                self.text() == old(self).text(),
                settled(self.commands(), self.progress()) == settled(
                    old(self).commands(),
                    old(self).progress(),
                ),
            decreases self.commands().len() - self.ok@.len(),
        {
            let ghost before = self.progress();
            self.ok.push(false);
            assert(self.progress() =~= passed_over(before));
        }
        if self.stopped {
            if self.frame {
                Some(Op::PopLocalFrame)
            } else {
                None
            }
        } else if self.ok.len() < self.script.commands.len() {
            Some(self.script.commands[self.ok.len()].op)
        } else {
            None
        }
    }

    /// Takes the reply to what `next` gave.
    pub fn reply(&mut self, reply: Reply)
        requires
            old(self).awaits_reply(),
        ensures
            final(self).commands() == old(self).commands(),
            final(self).text() == old(self).text(),
            old(self).progress().stopped ==> final(self).progress() == (Progress {
                frame: false,
                ..old(self).progress()
            }),
            !old(self).progress().stopped ==> final(self).progress() == answered(
                old(self).commands()[old(self).progress().ok.len() as int],
                old(self).progress(),
                reply,
            ),
    {
        let ghost before = self.progress();
        if self.stopped {
            self.frame = false;
            return ;
        }
        let command: Command = self.script.commands[self.ok.len()];
        let failed: bool = match reply {
            Reply::Failed => true,
            Reply::Pointer(p) => p == 0,
            _ => false,
        };
        self.ok.push(!failed);
        match command.op {
            Op::PushLocalFrame(_) => {
                self.frame = true;
            },
            Op::PopLocalFrame => {
                self.frame = false;
            },
            _ => {},
        }
        self.stopped = command.essential && failed;
        match (command.op, reply) {
            (Op::CallMethod { returns: Returns::Bool, .. }, Reply::Bool(b)) => {
                self.result = if b {
                    1
                } else {
                    0
                };
            },
            (Op::RegisterWidget(_), Reply::Handle(h)) => {
                self.result = h;
            },
            _ => {},
        }
        assert(self.progress() =~= answered(command, before, reply));
    }

    /// Whether nothing is left to do.
    pub fn is_done(&self) -> (r: bool)
        ensures
            r == self.done(),
    {
        if self.stopped {
            !self.frame
        } else {
            self.ok.len() >= self.script.commands.len()
        }
    }

    /// Whether an essential command failed.
    pub fn failed(&self) -> (r: bool)
        ensures
            r == self.progress().stopped,
    {
        self.stopped
    }

    /// The last boolean or handle that a command yielded, 0 if none did.
    pub fn result(&self) -> (r: i64)
        ensures
            r == self.progress().result,
    {
        self.result
    }
}

} // verus!
