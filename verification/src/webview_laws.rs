//! What holds of scripts and of the WebView operations, whatever the Java VM
//! replies.

use vstd::prelude::*;

use crate::script::{
    answered, at_command, passed_over, settled, start, succeeded, wanted, Command, Op, Progress,
    Reply,
};
use crate::value::is_zero;
use crate::webview::{
    can_go_back_commands, clear_cookies_commands, create_commands, create_setup,
    ephemeral_commands, essential, evaluate_js_commands, load_url_commands,
    set_user_agent_commands, string_method_commands, void_method_commands,
};

verus! {

/// Where a run stands after the first `n` commands, when command `i` replies
/// `replies[i]` if it is performed.
pub open spec fn dealt(commands: Seq<Command>, replies: Seq<Reply>, n: nat) -> Progress
    decreases n,
{
    if n == 0 {
        start()
    } else {
        let i = (n - 1) as nat;
        let p = dealt(commands, replies, i);
        if p.stopped {
            p
        } else if at_command(commands, p) {
            answered(commands[i as int], p, replies[i as int])
        } else {
            passed_over(p)
        }
    }
}

/// Command `i` is performed.
pub open spec fn performed(commands: Seq<Command>, replies: Seq<Reply>, i: nat) -> bool {
    i < commands.len() && at_command(commands, dealt(commands, replies, i))
}

/// Until it stops, a run has dealt with one command after the other.
proof fn lemma_dealt_len(commands: Seq<Command>, replies: Seq<Reply>, n: nat)
    ensures
        dealt(commands, replies, n).stopped || dealt(commands, replies, n).ok.len() == n,
    decreases n,
{
    if n > 0 {
        lemma_dealt_len(commands, replies, (n - 1) as nat);
    }
}

/// A run that has dealt with `n` commands goes on to the next command that is
/// performed and passes over exactly those in between that are not.
pub proof fn law_run_follows_replies(commands: Seq<Command>, replies: Seq<Reply>, n: nat)
    requires
        n <= commands.len(),
        !dealt(commands, replies, n).stopped,
    ensures
        ({
            let there = settled(commands, dealt(commands, replies, n));
            let j = there.ok.len();
            &&& n <= j <= commands.len()
            &&& there == dealt(commands, replies, j)
            &&& forall|k: nat| n <= k < j ==> !#[trigger] performed(commands, replies, k)
            &&& j < commands.len() ==> performed(commands, replies, j) && dealt(
                commands,
                replies,
                j + 1,
            ) == answered(commands[j as int], there, replies[j as int])
        }),
    decreases commands.len() - n,
{
    lemma_dealt_len(commands, replies, n);
    let p = dealt(commands, replies, n);
    if n < commands.len() && !at_command(commands, p) {
        assert(dealt(commands, replies, n + 1) == passed_over(p));
        law_run_follows_replies(commands, replies, n + 1);
        let j = settled(commands, p).ok.len();
        assert forall|k: nat| n <= k < j implies !#[trigger] performed(commands, replies, k) by {
            if k > n {
                assert(n + 1 <= k);
            }
        }
    }
}

/// Once stopped, a run performs no further command.
pub proof fn law_stopped_performs_nothing(
    commands: Seq<Command>,
    replies: Seq<Reply>,
    n: nat,
    i: nat,
)
    requires
        dealt(commands, replies, n).stopped,
        n <= i,
    ensures
        !performed(commands, replies, i),
        dealt(commands, replies, i) == dealt(commands, replies, n),
    decreases i - n,
{
    if i > n {
        law_stopped_performs_nothing(commands, replies, n, (i - 1) as nat);
    }
}

/// The script opens no local reference frame and closes none.
pub open spec fn unframed(commands: Seq<Command>) -> bool {
    forall|i: int|
        0 <= i < commands.len() ==> !(#[trigger] commands[i].op is PushLocalFrame)
            && !(commands[i].op is PopLocalFrame)
}

/// The script opens one local reference frame, with command `p`, and closes it
/// with command `q`; neither depends on anything.
pub open spec fn framed_by(commands: Seq<Command>, p: int, q: int) -> bool {
    &&& 0 <= p < q < commands.len()
    &&& forall|i: int|
        0 <= i < commands.len() ==> (#[trigger] commands[i].op is PushLocalFrame) == (i == p)
    &&& forall|i: int|
        0 <= i < commands.len() ==> (#[trigger] commands[i].op is PopLocalFrame) == (i == q)
    &&& commands[p].only_if is None
    &&& !commands[p].essential
    &&& commands[q].only_if is None
    &&& !commands[q].essential
}

/// The script opens at most one local reference frame and closes what it opens.
pub open spec fn framed(commands: Seq<Command>) -> bool {
    unframed(commands) || exists|p: int, q: int| framed_by(commands, p, q)
}

proof fn lemma_frame(commands: Seq<Command>, replies: Seq<Reply>, p: int, q: int, i: nat)
    requires
        framed_by(commands, p, q),
        i <= commands.len(),
    ensures
        ({
            let s = dealt(commands, replies, i);
            &&& i <= p ==> !s.frame
            &&& p < i <= q && !s.stopped ==> s.frame
            &&& q < i && !s.stopped ==> !s.frame
        }),
    decreases i,
{
    if i > 0 {
        lemma_frame(commands, replies, p, q, (i - 1) as nat);
        lemma_dealt_len(commands, replies, (i - 1) as nat);
    }
}

proof fn lemma_no_frame(commands: Seq<Command>, replies: Seq<Reply>, i: nat)
    requires
        unframed(commands),
        i <= commands.len(),
    ensures
        !dealt(commands, replies, i).frame,
    decreases i,
{
    if i > 0 {
        lemma_no_frame(commands, replies, (i - 1) as nat);
        lemma_dealt_len(commands, replies, (i - 1) as nat);
    }
}

/// Frames balance: a frame is opened only when none is open and closed only
/// when one is, and at the end of a script that was not stopped none is open.
/// Of a script that was stopped with an open frame, closing it is what is done
/// next.
pub proof fn law_frames_balance(commands: Seq<Command>, replies: Seq<Reply>, i: nat)
    requires
        framed(commands),
        i < commands.len(),
    ensures
        performed(commands, replies, i) && commands[i as int].op is PushLocalFrame ==> !dealt(
            commands,
            replies,
            i,
        ).frame,
        performed(commands, replies, i) && commands[i as int].op is PopLocalFrame ==> dealt(
            commands,
            replies,
            i,
        ).frame,
        dealt(commands, replies, commands.len()).stopped || !dealt(
            commands,
            replies,
            commands.len(),
        ).frame,
        dealt(commands, replies, i).stopped && dealt(commands, replies, i).frame ==> wanted(
            commands,
            dealt(commands, replies, i),
        ) == Some(Op::PopLocalFrame),
{
    if unframed(commands) {
        lemma_no_frame(commands, replies, commands.len());
    } else {
        let (p, q) = choose|p: int, q: int| framed_by(commands, p, q);
        lemma_frame(commands, replies, p, q, i);
        lemma_frame(commands, replies, p, q, commands.len());
    }
}

/// The scripts of all WebView operations are framed.
pub proof fn law_operations_are_framed(
    handle: i64,
    name: &'static str,
    sig: &'static str,
    callback: u64,
    with_url: bool,
)
    ensures
        framed(create_commands(with_url)),
        framed(string_method_commands(handle, name, sig)),
        framed(void_method_commands(handle, name)),
        framed(load_url_commands(handle, with_url)),
        framed(can_go_back_commands(handle)),
        framed(evaluate_js_commands(handle, callback)),
        framed(clear_cookies_commands()),
        framed(set_user_agent_commands(handle)),
        framed(ephemeral_commands()),
{
    assert(framed_by(create_commands(with_url), 0, create_commands(with_url).len() - 2));
    assert(framed_by(string_method_commands(handle, name, sig), 1, 4));
    assert(framed_by(string_method_commands(handle, "loadUrl", "(Ljava/lang/String;)V"), 1, 4));
    assert(framed_by(evaluate_js_commands(handle, callback), 1, 4));
    assert(framed_by(clear_cookies_commands(), 0, 4));
    assert(framed_by(set_user_agent_commands(handle), 1, 5));
    assert(framed_by(ephemeral_commands(), 0, 7));
}

/// An operation on a widget whose handle is unknown does nothing: after the
/// failed look-up no command is performed and no frame is open.
pub proof fn law_unknown_widget_is_ignored(
    commands: Seq<Command>,
    replies: Seq<Reply>,
    handle: i64,
    i: nat,
)
    requires
        commands.len() > 0,
        commands[0] == essential(Op::GetWidget(handle)),
        !succeeded(replies[0]),
        1 <= i,
    ensures
        !performed(commands, replies, i),
        dealt(commands, replies, i).stopped,
        !dealt(commands, replies, i).frame,
        dealt(commands, replies, i).result == 0,
{
    reveal_with_fuel(dealt, 2);
    assert(dealt(commands, replies, 1).stopped);
    law_stopped_performs_nothing(commands, replies, 1, i);
}

/// After the setup of a WebView that could be made: what failed was passed over,
/// with everything that needed it.
spec fn set_up(commands: Seq<Command>, replies: Seq<Reply>) -> bool {
    let yes = |i: int| succeeded(replies[i]);
    &&& dealt(commands, replies, 8) == (Progress {
        ok: seq![
            yes(0),
            true,
            true,
            yes(3),
            yes(3) && yes(4),
            yes(3) && yes(5),
            yes(6),
            yes(6) && yes(7),
        ],
        frame: true,
        stopped: false,
        result: 0,
    })
    &&& performed(commands, replies, 3)
    &&& performed(commands, replies, 4) == yes(3)
    &&& performed(commands, replies, 5) == yes(3)
    &&& performed(commands, replies, 6)
    &&& performed(commands, replies, 7) == yes(6)
}

/// A run of the setup of a WebView, command by command.
proof fn lemma_create_setup(commands: Seq<Command>, replies: Seq<Reply>)
    requires
        8 <= commands.len(),
        forall|i: int| 0 <= i < 8 ==> commands[i] == #[trigger] create_setup()[i],
    ensures
        performed(commands, replies, 0),
        performed(commands, replies, 1),
        performed(commands, replies, 2) == succeeded(replies[1]),
        if succeeded(replies[1]) && succeeded(replies[2]) {
            set_up(commands, replies)
        } else {
            &&& dealt(commands, replies, 3).stopped
            &&& dealt(commands, replies, 3).frame
            &&& dealt(commands, replies, 3).result == 0
        },
{
    let yes = |i: int| succeeded(replies[i]);
    let setup = create_setup();
    assert(commands[0] == setup[0] && commands[1] == setup[1] && commands[2] == setup[2]);
    assert(dealt(commands, replies, 0) == start());
    let p1 = Progress { ok: seq![yes(0)], frame: true, stopped: false, result: 0 };
    assert(dealt(commands, replies, 1) =~= p1);
    if yes(1) {
        let p2 = Progress { ok: seq![yes(0), true], ..p1 };
        assert(dealt(commands, replies, 2) =~= p2);
        if yes(2) {
            let p3 = Progress { ok: seq![yes(0), true, true], ..p1 };
            assert(dealt(commands, replies, 3) =~= p3);
            lemma_create_settings(commands, replies);
        } else {
            assert(dealt(commands, replies, 3).stopped);
        }
    } else {
        assert(dealt(commands, replies, 2).stopped);
        assert(dealt(commands, replies, 3) == dealt(commands, replies, 2));
    }
}

/// The second part of the setup, once there is a WebView.
proof fn lemma_create_settings(commands: Seq<Command>, replies: Seq<Reply>)
    requires
        8 <= commands.len(),
        forall|i: int| 0 <= i < 8 ==> commands[i] == #[trigger] create_setup()[i],
        dealt(commands, replies, 3) == (Progress {
            ok: seq![succeeded(replies[0]), true, true],
            frame: true,
            stopped: false,
            result: 0,
        }),
    ensures
        set_up(commands, replies),
{
    let yes = |i: int| succeeded(replies[i]);
    let setup = create_setup();
    let p3 = dealt(commands, replies, 3);
    assert(commands[3] == setup[3]);
    let p4 = Progress { ok: p3.ok.push(yes(3)), ..p3 };
    assert(dealt(commands, replies, 4) =~= p4);
    assert(commands[4] == setup[4]);
    let p5 = Progress { ok: p4.ok.push(yes(3) && yes(4)), ..p3 };
    assert(dealt(commands, replies, 5) =~= p5);
    assert(commands[5] == setup[5]);
    let p6 = Progress { ok: p5.ok.push(yes(3) && yes(5)), ..p3 };
    assert(dealt(commands, replies, 6) =~= p6);
    assert(commands[6] == setup[6]);
    let p7 = Progress { ok: p6.ok.push(yes(6)), ..p3 };
    assert(dealt(commands, replies, 7) =~= p7);
    assert(commands[7] == setup[7]);
    let p8 = Progress { ok: p7.ok.push(yes(6) && yes(7)), ..p3 };
    assert(dealt(commands, replies, 8) =~= p8);
    assert(p8.ok =~= seq![
        yes(0),
        true,
        true,
        yes(3),
        yes(3) && yes(4),
        yes(3) && yes(5),
        yes(6),
        yes(6) && yes(7),
    ]);
}

/// Creation succeeds exactly when the WebView could be made and a global
/// reference to it could be kept; its result is then the handle under which the
/// widget was registered, and 0 otherwise. Whatever else fails is passed over:
/// settings are changed when there are settings, the client is set when there
/// is one, and the URL is loaded when it is not empty and its Java string could
/// be made.
pub proof fn law_create(with_url: bool, replies: Seq<Reply>)
    ensures
        ({
            let commands = create_commands(with_url);
            let n = commands.len();
            let yes = |i: int| succeeded(replies[i]);
            let made = yes(1) && yes(2);
            let kept = made && yes(n - 3);
            let end = dealt(commands, replies, n);
            &&& end.stopped == !kept
            &&& end.result == (match replies[n - 1] {
                Reply::Handle(h) => if kept {
                    h as int
                } else {
                    0
                },
                _ => 0,
            })
            &&& performed(commands, replies, (n - 1) as nat) == kept
            &&& performed(commands, replies, (n - 2) as nat) == kept
            &&& performed(commands, replies, (n - 3) as nat) == made
            &&& performed(commands, replies, 0)
            &&& performed(commands, replies, 1)
            &&& performed(commands, replies, 2) == yes(1)
            &&& performed(commands, replies, 3) == made
            &&& performed(commands, replies, 6) == made
            &&& with_url ==> performed(commands, replies, 8) == made
            &&& performed(commands, replies, 4) == (made && yes(3))
            &&& performed(commands, replies, 5) == (made && yes(3))
            &&& performed(commands, replies, 7) == (made && yes(6))
            &&& with_url ==> performed(commands, replies, 9) == (made && yes(8))
        }),
{
    let commands = create_commands(with_url);
    let n = commands.len();
    let yes = |i: int| succeeded(replies[i]);
    assert forall|i: int| 0 <= i < 8 implies commands[i] == #[trigger] create_setup()[i] by {}
    lemma_create_setup(commands, replies);
    if yes(1) && yes(2) {
        let p8 = dealt(commands, replies, 8);
        let m = (n - 3) as nat;
        let before = dealt(commands, replies, m);
        if with_url {
            assert(commands[8].op == Op::NewString);
            let p9 = Progress { ok: p8.ok.push(yes(8)), ..p8 };
            assert(dealt(commands, replies, 9) =~= p9);
            assert(commands[9].op is CallMethod);
            let p10 = Progress { ok: p9.ok.push(yes(8) && yes(9)), ..p8 };
            assert(dealt(commands, replies, 10) =~= p10);
        }
        assert(before.ok.len() == m && before.ok[2] && !before.stopped && before.result == 0);
        assert(commands[m as int] == essential(Op::NewGlobalRef(2)));
        let kept = dealt(commands, replies, m + 1);
        assert(kept == answered(commands[m as int], before, replies[m as int]));
        if yes(m as int) {
            assert(commands[m as int + 1].op == Op::PopLocalFrame);
            let popped = dealt(commands, replies, m + 2);
            assert(popped == answered(commands[m as int + 1], kept, replies[m as int + 1]));
            assert(commands[m as int + 2].op == Op::RegisterWidget(m as usize));
            assert(popped.ok[m as int]);
            assert(dealt(commands, replies, m + 3) == answered(
                commands[m as int + 2],
                popped,
                replies[m as int + 2],
            ));
        } else {
            law_stopped_performs_nothing(commands, replies, m + 1, (n - 2) as nat);
            law_stopped_performs_nothing(commands, replies, m + 1, (n - 1) as nat);
            law_stopped_performs_nothing(commands, replies, m + 1, n);
        }
    } else {
        law_stopped_performs_nothing(commands, replies, 3, 3);
        law_stopped_performs_nothing(commands, replies, 3, 4);
        law_stopped_performs_nothing(commands, replies, 3, 5);
        law_stopped_performs_nothing(commands, replies, 3, 6);
        law_stopped_performs_nothing(commands, replies, 3, 7);
        law_stopped_performs_nothing(commands, replies, 3, 8);
        law_stopped_performs_nothing(commands, replies, 3, 9);
        law_stopped_performs_nothing(commands, replies, 3, (n - 3) as nat);
        law_stopped_performs_nothing(commands, replies, 3, (n - 2) as nat);
        law_stopped_performs_nothing(commands, replies, 3, (n - 1) as nat);
        law_stopped_performs_nothing(commands, replies, 3, n);
    }
}

/// The method of a widget's view is called with the string exactly when the
/// widget exists and the Java string could be made.
pub proof fn law_string_method(
    handle: i64,
    name: &'static str,
    sig: &'static str,
    replies: Seq<Reply>,
)
    ensures
        performed(string_method_commands(handle, name, sig), replies, 3) == (succeeded(
            replies[0],
        ) && succeeded(replies[2])),
{
    reveal_with_fuel(dealt, 4);
}

/// The method of a widget's view is called exactly when the widget exists.
pub proof fn law_void_method(handle: i64, name: &'static str, replies: Seq<Reply>)
    ensures
        performed(void_method_commands(handle, name), replies, 1) == succeeded(replies[0]),
{
    reveal_with_fuel(dealt, 2);
}

/// Cookies are removed whenever the cookie manager's class and instance could
/// be had.
pub proof fn law_clear_cookies(replies: Seq<Reply>)
    ensures
        performed(clear_cookies_commands(), replies, 3) == (succeeded(replies[1])
            && succeeded(replies[2])),
        !dealt(clear_cookies_commands(), replies, 5).stopped,
{
    reveal_with_fuel(dealt, 6);
}

/// The answer to `can_go_back` is 1 exactly when the widget exists and the view
/// said so, and 0 otherwise.
pub proof fn law_can_go_back(handle: i64, replies: Seq<Reply>)
    ensures
        dealt(can_go_back_commands(handle), replies, 2).result == (if succeeded(replies[0])
            && replies[1] == Reply::Bool(true) {
            1int
        } else {
            0
        }),
{
    reveal_with_fuel(dealt, 3);
}

/// The callback of `evaluate_js` is called, once and last, exactly when the
/// widget exists and there is a closure to call, whether or not the JavaScript
/// could be run. Without a callback no closure is called. The JavaScript is run
/// exactly when the widget exists and the Java string could be made.
pub proof fn law_evaluate_js(handle: i64, callback: u64, replies: Seq<Reply>)
    ensures
        !is_zero(callback) ==> performed(evaluate_js_commands(handle, callback), replies, 7) == (
        succeeded(replies[0]) && succeeded(replies[5]) && succeeded(replies[6])),
        forall|i: int|
            0 <= i < evaluate_js_commands(handle, callback).len() ==> ((
            #[trigger] evaluate_js_commands(handle, callback)[i]).op is CallClosure) == (i == 7),
        is_zero(callback) ==> evaluate_js_commands(handle, callback).len() == 5,
        performed(evaluate_js_commands(handle, callback), replies, 3) == (succeeded(
            replies[0],
        ) && succeeded(replies[2])),
{
    reveal_with_fuel(dealt, 9);
}

/// The user agent is set exactly when the widget exists, its settings could be
/// had and the Java string could be made.
pub proof fn law_set_user_agent(handle: i64, replies: Seq<Reply>)
    ensures
        performed(set_user_agent_commands(handle), replies, 3) == (succeeded(replies[0])
            && succeeded(replies[2])),
        performed(set_user_agent_commands(handle), replies, 4) == (succeeded(replies[0])
            && succeeded(replies[2]) && succeeded(replies[3])),
{
    reveal_with_fuel(dealt, 6);
}

/// Of an ephemeral session, cookies and web storage are removed independently:
/// each whenever its class and instance could be had.
pub proof fn law_ephemeral(replies: Seq<Reply>)
    ensures
        performed(ephemeral_commands(), replies, 3) == (succeeded(replies[1])
            && succeeded(replies[2])),
        performed(ephemeral_commands(), replies, 6) == (succeeded(replies[4])
            && succeeded(replies[5])),
        !dealt(ephemeral_commands(), replies, 8).stopped,
{
    reveal_with_fuel(dealt, 9);
}

} // verus!
