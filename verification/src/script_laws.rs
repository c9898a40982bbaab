//! What calls of a run give, command by command.

use vstd::prelude::*;

use crate::script::{
    args_ready, at_command, command_ready, passed_over, settled, succeeded, Arg, Args, Command, Op, Progress,
    Reply, Returns, Run, Script,
};

verus! {

/// The argument is what command `i` yielded.
pub open spec fn arg_uses(arg: Arg, i: int) -> bool {
    arg matches Arg::Object(j) && j == i
}

/// An argument is what command `i` yielded.
pub open spec fn args_use(args: Args, i: int) -> bool {
    ||| args matches Args::One(a) && arg_uses(a, i)
    ||| args matches Args::Two(a, _) && arg_uses(a, i)
    ||| args matches Args::Two(_, b) && arg_uses(b, i)
}

/// The command needs that command `i` succeeded: it names it, as receiver,
/// argument, class, reference or closure, or only follows it.
pub open spec fn needs(command: Command, i: int) -> bool {
    ||| command.only_if matches Some(j) && j == i
    ||| command.op matches Op::NewObject { args, .. } && args_use(args, i)
    ||| command.op matches Op::NewGlobalRef(j) && j == i
    ||| command.op matches Op::RegisterWidget(j) && j == i
    ||| command.op matches Op::CallMethod { object, .. } && object == i
    ||| command.op matches Op::CallMethod { args, .. } && args_use(args, i)
    ||| command.op matches Op::CallStaticMethod { of, .. } && of == i
    ||| command.op matches Op::CallClosure { closure, .. } && closure == i
    ||| command.op matches Op::CallClosure { arg, .. } && arg == i
}

/// Command `i` came before and succeeded.
pub open spec fn at_hand(ok: Seq<bool>, i: int) -> bool {
    0 <= i < ok.len() && ok[i]
}

/// Everything that the command needs came before and succeeded.
pub open spec fn provided(command: Command, ok: Seq<bool>) -> bool {
    forall|i: int| #[trigger] needs(command, i) ==> at_hand(ok, i)
}

/// A command is performed exactly when everything that it needs is there.
pub proof fn law_commands_need_what_they_name(command: Command, ok: Seq<bool>)
    ensures
        command_ready(command, ok) == provided(command, ok),
{
    if provided(command, ok) {
        match command.only_if {
            Some(i) => {
                assert(needs(command, i as int));
            },
            None => {},
        }
        match command.op {
            Op::NewObject { args, .. } => {
                lemma_args(command, args, ok);
            },
            Op::NewGlobalRef(i) => {
                assert(needs(command, i as int));
            },
            Op::RegisterWidget(i) => {
                assert(needs(command, i as int));
            },
            Op::CallMethod { object, args, .. } => {
                assert(needs(command, object as int));
                lemma_args(command, args, ok);
            },
            Op::CallStaticMethod { of, .. } => {
                assert(needs(command, of as int));
            },
            Op::CallClosure { closure, arg } => {
                assert(needs(command, closure as int));
                assert(needs(command, arg as int));
            },
            _ => {},
        }
    }
}

proof fn lemma_args(command: Command, args: Args, ok: Seq<bool>)
    requires
        provided(command, ok),
        forall|i: int| args_use(args, i) ==> needs(command, i),
    ensures
        args_ready(args, ok),
{
    match args {
        Args::Zero => {},
        Args::One(a) => {
            if let Arg::Object(i) = a {
                assert(args_use(args, i as int));
            }
        },
        Args::Two(a, b) => {
            if let Arg::Object(i) = a {
                assert(args_use(args, i as int));
            }
            if let Arg::Object(i) = b {
                assert(args_use(args, i as int));
            }
        },
    }
}

/// A run starts before the first command of its script, with nothing done.
pub proof fn law_run_starts(script: Script, run: Run)
    requires
        call_ensures(Run::new, (script,), run),
    ensures
        run.commands() == script.commands@,
        run.text() == script.text@,
        run.progress().ok.len() == 0,
        !run.progress().frame,
        !run.progress().stopped,
        run.progress().result == 0,
{
}

/// Settling passes over the commands that lack something, and those only.
proof fn lemma_settled(commands: Seq<Command>, p: Progress)
    requires
        !p.stopped,
        p.ok.len() <= commands.len(),
    ensures
        ({
            let q = settled(commands, p);
            &&& p.ok.len() <= q.ok.len() <= commands.len()
            &&& q.ok.take(p.ok.len() as int) == p.ok
            &&& forall|k: int|
                p.ok.len() <= k < q.ok.len() ==> !(#[trigger] q.ok[k]) && !command_ready(
                    commands[k],
                    q.ok.take(k),
                )
            &&& q.frame == p.frame && q.stopped == p.stopped && q.result == p.result
            &&& q.ok.len() < commands.len() ==> command_ready(commands[q.ok.len() as int], q.ok)
        }),
    decreases commands.len() - p.ok.len(),
{
    let q = settled(commands, p);
    if p.ok.len() < commands.len() && !at_command(commands, p) {
        let next = passed_over(p);
        lemma_settled(commands, next);
        assert(q.ok.take(p.ok.len() as int) =~= q.ok.take(next.ok.len() as int).take(
            p.ok.len() as int,
        ));
        assert(next.ok.take(p.ok.len() as int) =~= p.ok);
        assert(q.ok[p.ok.len() as int] == q.ok.take(next.ok.len() as int)[p.ok.len() as int]);
    } else {
        assert(q.ok.take(p.ok.len() as int) =~= p.ok);
    }
}

/// What is next in a script that was not stopped: the first command from here on
/// that has everything it needs; those before it count as failed. Nothing is
/// next when none is left. Of a stopped script only an open frame is closed.
pub proof fn law_next(before: Run, after: Run, op: Option<Op>)
    requires
        before.progress().ok.len() <= before.commands().len(),
        exists|r: &mut Run|
            *r == before && *final(r) == after && #[trigger] call_ensures(Run::next, (r,), op),
    ensures
        after.commands() == before.commands(),
        after.text() == before.text(),
        after.progress().frame == before.progress().frame,
        after.progress().stopped == before.progress().stopped,
        after.progress().result == before.progress().result,
        before.progress().stopped ==> after.progress() == before.progress() && op == (
        if before.progress().frame {
            Some(Op::PopLocalFrame)
        } else {
            None
        }),
        !before.progress().stopped ==> {
            let from = before.progress().ok.len() as int;
            let ok = after.progress().ok;
            let commands = before.commands();
            &&& from <= ok.len() <= commands.len()
            &&& ok.take(from) == before.progress().ok
            &&& forall|k: int|
                from <= k < ok.len() ==> !(#[trigger] ok[k]) && !provided(commands[k], ok.take(k))
            &&& ok.len() < commands.len() ==> op == Some(commands[ok.len() as int].op) && provided(
                commands[ok.len() as int],
                ok,
            )
            &&& ok.len() == commands.len() ==> op is None
        },
{
    if !before.progress().stopped {
        let ok = after.progress().ok;
        let commands = before.commands();
        lemma_settled(commands, before.progress());
        assert forall|k: int| before.progress().ok.len() <= k < ok.len() implies !(
        #[trigger] ok[k]) && !provided(commands[k], ok.take(k)) by {
            law_commands_need_what_they_name(commands[k], ok.take(k));
        }
        if ok.len() < commands.len() {
            law_commands_need_what_they_name(commands[ok.len() as int], ok);
        }
    }
}

/// A reply says whether the command succeeded: all but failure and a null
/// pointer do, whatever boolean or handle was yielded.
pub proof fn law_replies(b: bool, h: i64, p: u64)
    ensures
        !succeeded(Reply::Failed),
        succeeded(Reply::Done),
        succeeded(Reply::Bool(b)),
        succeeded(Reply::Handle(h)),
        succeeded(Reply::Pointer(p)) == (p != 0),
{
}

/// What a reply does: the command's success is noted under its number; opening
/// and closing a frame counts whatever the reply; the failure of an essential
/// command, and nothing else, stops the script; the answer to a yes-or-no call
/// and the handle of a registered widget become the result. In a stopped script
/// the reply to closing the frame closes it.
pub proof fn law_reply(before: Run, after: Run, reply: Reply)
    requires
        exists|r: &mut Run|
            *r == before && *final(r) == after && #[trigger] call_ensures(
                Run::reply,
                (r, reply),
                (),
            ),
    ensures
        after.commands() == before.commands(),
        after.text() == before.text(),
        before.progress().stopped ==> after.progress() == (Progress {
            frame: false,
            ..before.progress()
        }),
        !before.progress().stopped ==> {
            let n = before.progress().ok.len() as int;
            let command = before.commands()[n];
            let p = after.progress();
            &&& p.ok == before.progress().ok.push(succeeded(reply))
            &&& p.stopped == (command.essential && !succeeded(reply))
            &&& command.op is PushLocalFrame ==> p.frame
            &&& command.op is PopLocalFrame ==> !p.frame
            &&& !(command.op is PushLocalFrame) && !(command.op is PopLocalFrame) ==> p.frame
                == before.progress().frame
            &&& command.op is CallMethod && command.op->returns == Returns::Bool && reply
                == Reply::Bool(true) ==> p.result == 1
            &&& command.op is CallMethod && command.op->returns == Returns::Bool && reply
                == Reply::Bool(false) ==> p.result == 0
            &&& command.op is RegisterWidget && reply is Handle ==> p.result == reply->Handle_0
            &&& !(command.op is CallMethod && command.op->returns == Returns::Bool && reply is Bool)
                && !(command.op is RegisterWidget && reply is Handle) ==> p.result
                == before.progress().result
        },
{
}

/// What a run tells of itself.
pub proof fn law_run_tells(
    run: Run,
    number: usize,
    done: bool,
    failed: bool,
    result: i64,
    text: &str,
)
    requires
        call_ensures(Run::number, (&run,), number),
        call_ensures(Run::is_done, (&run,), done),
        call_ensures(Run::failed, (&run,), failed),
        call_ensures(Run::result, (&run,), result),
        call_ensures(Run::script_text, (&run,), text),
    ensures
        number == run.progress().ok.len(),
        failed == run.progress().stopped,
        result == run.progress().result,
        text@ == run.text(),
        failed ==> done == !run.progress().frame,
        !failed ==> done == (run.progress().ok.len() >= run.commands().len()),
{
}

} // verus!
