//! What the scripts of the WebView operations do, in terms of the things that
//! they handle rather than of command numbers, and what is kept of each widget.

use vstd::prelude::*;

use crate::script::{succeeded, Arg, Args, Command, Op, Reply, Returns, Run, Script};
use crate::webview::{
    call_string_method, call_void_method, can_go_back, clear_cookies, create, create_finished,
    domain_texts, evaluate_js, go_back, go_forward, load_url, reload, set_allowed_domains, set_ephemeral,
    set_on_error, set_on_loaded, set_on_should_navigate, set_user_agent, string_method_commands,
    texts_of, WebViewState, WebViewStates,
};
use crate::webview_laws::{dealt, law_create, performed};

verus! {

/// What a command yields, said by where it comes from.
pub enum Thing {
    /// The view of a widget.
    View(i64),
    /// The activity.
    Activity,
    /// A Java class.
    Class(&'static str),
    /// A new object of a class.
    New(&'static str),
    /// A Java string with the script's text.
    Text,
    /// A global reference to a thing.
    Global(Box<Thing>),
    /// What a method of a thing gave.
    From(Box<Thing>, &'static str),
    /// The empty string of the running program.
    EmptyString,
    /// The closure that a value points to.
    Closure(u64),
    /// The boolean `true`.
    True,
    /// The null reference.
    Null,
    /// Nothing.
    Missing,
}

/// What a command does, with the things that it uses.
pub enum Deed {
    /// Opens a frame for so many references.
    OpenFrame(i32),
    /// Closes the frame.
    CloseFrame,
    /// Obtains a thing.
    Obtain(Thing),
    /// Makes a new object of a class, by the constructor of this signature.
    Make(&'static str, &'static str, Seq<Thing>),
    /// Keeps a thing by a global reference.
    Keep(Thing),
    /// Registers a thing as a widget.
    Register(Thing),
    /// Calls the method of this name and signature of a thing.
    Call(Thing, &'static str, &'static str, Seq<Thing>, Returns),
    /// Calls the static method of this name and signature of a class.
    CallStatic(Thing, &'static str, &'static str),
    /// Calls a closure with a thing.
    Invoke(Thing, Thing),
}

/// What command `i` of the script yields.
pub open spec fn thing(commands: Seq<Command>, i: int) -> Thing
    decreases i,
{
    if 0 <= i < commands.len() {
        match commands[i].op {
            Op::GetWidget(handle) => Thing::View(handle),
            Op::GetActivity => Thing::Activity,
            Op::FindClass(class) => Thing::Class(class),
            Op::NewObject { class, .. } => Thing::New(class),
            Op::NewString => Thing::Text,
            Op::NewGlobalRef(j) => if j < i {
                Thing::Global(Box::new(thing(commands, j as int)))
            } else {
                Thing::Missing
            },
            Op::CallMethod { object, name, returns: Returns::Object, .. } => if object < i {
                Thing::From(Box::new(thing(commands, object as int)), name)
            } else {
                Thing::Missing
            },
            Op::CallStaticMethod { of, name, .. } => if of < i {
                Thing::From(Box::new(thing(commands, of as int)), name)
            } else {
                Thing::Missing
            },
            Op::BoxEmptyString => Thing::EmptyString,
            Op::ClosurePointer(value) => Thing::Closure(value),
            _ => Thing::Missing,
        }
    } else {
        Thing::Missing
    }
}

/// What command `j` yields to command `i`.
pub open spec fn given(commands: Seq<Command>, i: int, j: usize) -> Thing {
    if j < i {
        thing(commands, j as int)
    } else {
        Thing::Missing
    }
}

/// The argument, as a thing.
pub open spec fn arg_thing(commands: Seq<Command>, i: int, arg: Arg) -> Thing {
    match arg {
        Arg::Object(j) => given(commands, i, j),
        Arg::True => Thing::True,
        Arg::Null => Thing::Null,
    }
}

/// The arguments, as things.
pub open spec fn arg_things(commands: Seq<Command>, i: int, args: Args) -> Seq<Thing> {
    match args {
        Args::Zero => seq![],
        Args::One(a) => seq![arg_thing(commands, i, a)],
        Args::Two(a, b) => seq![arg_thing(commands, i, a), arg_thing(commands, i, b)],
    }
}

/// What command `i` of the script does.
pub open spec fn deed(commands: Seq<Command>, i: int) -> Deed {
    match commands[i].op {
        Op::PushLocalFrame(room) => Deed::OpenFrame(room),
        Op::PopLocalFrame => Deed::CloseFrame,
        Op::NewObject { class, sig, args } => Deed::Make(
            class,
            sig,
            arg_things(commands, i, args),
        ),
        Op::NewGlobalRef(j) => Deed::Keep(given(commands, i, j)),
        Op::RegisterWidget(j) => Deed::Register(given(commands, i, j)),
        Op::CallMethod { object, name, sig, args, returns: kind } => Deed::Call(
            given(commands, i, object),
            name,
            sig,
            arg_things(commands, i, args),
            kind,
        ),
        Op::CallStaticMethod { of, name, sig } => Deed::CallStatic(
            given(commands, i, of),
            name,
            sig,
        ),
        Op::CallClosure { closure, arg } => Deed::Invoke(
            given(commands, i, closure),
            given(commands, i, arg),
        ),
        _ => Deed::Obtain(thing(commands, i)),
    }
}

/// Command `i` of the script does `what`, and does it exactly when `when` holds.
pub open spec fn does(
    script: Script,
    replies: Seq<Reply>,
    i: int,
    what: Deed,
    when: bool,
) -> bool {
    &&& 0 <= i < script.commands@.len()
    &&& deed(script.commands@, i) == what
    &&& performed(script.commands@, replies, i as nat) == when
}

/// Where the script stands at its end.
pub open spec fn ends(script: Script, replies: Seq<Reply>, stopped: bool, result: int) -> bool {
    let end = dealt(script.commands@, replies, script.commands@.len());
    end.stopped == stopped && end.result == result
}

/// A WebView is created for the activity, with JavaScript and DOM storage
/// enabled in its own settings, with a new stock client set on it, with the URL
/// loaded into it unless it is empty, and kept by a global reference, under
/// which it is registered once its frame is closed. It fails when the activity,
/// the WebView or the global reference cannot be had, and only then; what else
/// fails is passed over with what needs it.
pub proof fn law_create_does(url: String, script: Script, replies: Seq<Reply>)
    requires
        call_ensures(create, (url,), script),
    ensures
        ({
            let yes = |i: int| succeeded(replies[i]);
            let view = Thing::New("android/webkit/WebView");
            let settings = Thing::From(Box::new(view), "getSettings");
            let client = Thing::New("android/webkit/WebViewClient");
            let made = yes(1) && yes(2);
            let n: int = if url@.len() == 0 {
                8
            } else {
                10
            };
            let kept = made && yes(n);
            &&& script.text@ == url@
            &&& script.commands@.len() == n + 3
            &&& does(script, replies, 0, Deed::OpenFrame(32), true)
            &&& does(script, replies, 1, Deed::Obtain(Thing::Activity), true)
            &&& does(
                script,
                replies,
                2,
                Deed::Make(
                    "android/webkit/WebView",
                    "(Landroid/content/Context;)V",
                    seq![Thing::Activity],
                ),
                yes(1),
            )
            &&& does(
                script,
                replies,
                3,
                Deed::Call(
                    view,
                    "getSettings",
                    "()Landroid/webkit/WebSettings;",
                    seq![],
                    Returns::Object,
                ),
                made,
            )
            &&& does(
                script,
                replies,
                4,
                Deed::Call(
                    settings,
                    "setJavaScriptEnabled",
                    "(Z)V",
                    seq![Thing::True],
                    Returns::Nothing,
                ),
                made && yes(3),
            )
            &&& does(
                script,
                replies,
                5,
                Deed::Call(
                    settings,
                    "setDomStorageEnabled",
                    "(Z)V",
                    seq![Thing::True],
                    Returns::Nothing,
                ),
                made && yes(3),
            )
            &&& does(
                script,
                replies,
                6,
                Deed::Make("android/webkit/WebViewClient", "()V", seq![]),
                made,
            )
            &&& does(
                script,
                replies,
                7,
                Deed::Call(
                    view,
                    "setWebViewClient",
                    "(Landroid/webkit/WebViewClient;)V",
                    seq![client],
                    Returns::Nothing,
                ),
                made && yes(6),
            )
            &&& url@.len() != 0 ==> does(script, replies, 8, Deed::Obtain(Thing::Text), made)
            &&& url@.len() != 0 ==> does(
                script,
                replies,
                9,
                Deed::Call(
                    view,
                    "loadUrl",
                    "(Ljava/lang/String;)V",
                    seq![Thing::Text],
                    Returns::Nothing,
                ),
                made && yes(8),
            )
            &&& does(script, replies, n, Deed::Keep(view), made)
            &&& does(script, replies, n + 1, Deed::CloseFrame, kept)
            &&& does(
                script,
                replies,
                n + 2,
                Deed::Register(Thing::Global(Box::new(view))),
                kept,
            )
            &&& ends(
                script,
                replies,
                !kept,
                if kept && replies[n + 2] is Handle {
                    replies[n + 2]->Handle_0 as int
                } else {
                    0
                },
            )
        }),
{
    reveal_with_fuel(thing, 3);
    let commands = script.commands@;
    law_create(url@.len() != 0, replies);
}

/// A method of a widget's view is called with the text, whatever its name and
/// signature, within a frame.
pub proof fn law_string_method_does(
    handle: i64,
    name: &'static str,
    sig: &'static str,
    text: String,
    script: Script,
    replies: Seq<Reply>,
)
    requires
        call_ensures(call_string_method, (handle, name, sig, text), script),
    ensures
        calls_with_text(script, replies, handle, name, sig, text@),
{
    lemma_calls_with_text(script, replies, handle, name, sig, text@);
}

/// The script calls the method of the widget's view with the text.
pub open spec fn calls_with_text(
    script: Script,
    replies: Seq<Reply>,
    handle: i64,
    name: &'static str,
    sig: &'static str,
    text: Seq<char>,
) -> bool {
    let known = succeeded(replies[0]);
    &&& script.text@ == text
    &&& script.commands@.len() == 5
    &&& does(script, replies, 0, Deed::Obtain(Thing::View(handle)), true)
    &&& does(script, replies, 1, Deed::OpenFrame(8), known)
    &&& does(script, replies, 2, Deed::Obtain(Thing::Text), known)
    &&& does(
        script,
        replies,
        3,
        Deed::Call(Thing::View(handle), name, sig, seq![Thing::Text], Returns::Nothing),
        known && succeeded(replies[2]),
    )
    &&& does(script, replies, 4, Deed::CloseFrame, known)
    &&& ends(script, replies, !known, 0)
}

proof fn lemma_calls_with_text(
    script: Script,
    replies: Seq<Reply>,
    handle: i64,
    name: &'static str,
    sig: &'static str,
    text: Seq<char>,
)
    requires
        script.text@ == text,
        script.commands@ == string_method_commands(handle, name, sig),
    ensures
        calls_with_text(script, replies, handle, name, sig, text),
{
    reveal_with_fuel(thing, 2);
    reveal_with_fuel(dealt, 6);
}

/// A URL that is not empty is loaded by `loadUrl` of the widget's view; for the
/// empty one nothing is done.
pub proof fn law_load_url_does(handle: i64, url: String, script: Script, replies: Seq<Reply>)
    requires
        call_ensures(load_url, (handle, url), script),
    ensures
        url@.len() != 0 ==> calls_with_text(
            script,
            replies,
            handle,
            "loadUrl",
            "(Ljava/lang/String;)V",
            url@,
        ),
        url@.len() == 0 ==> script.commands@.len() == 0,
{
    if url@.len() != 0 {
        lemma_calls_with_text(script, replies, handle, "loadUrl", "(Ljava/lang/String;)V", url@);
    }
}

/// The script calls the method of the widget's view, without arguments.
pub open spec fn calls_plainly(
    script: Script,
    replies: Seq<Reply>,
    handle: i64,
    name: &'static str,
) -> bool {
    let known = succeeded(replies[0]);
    &&& script.text@.len() == 0
    &&& script.commands@.len() == 2
    &&& does(script, replies, 0, Deed::Obtain(Thing::View(handle)), true)
    &&& does(
        script,
        replies,
        1,
        Deed::Call(Thing::View(handle), name, "()V", seq![], Returns::Nothing),
        known,
    )
    &&& ends(script, replies, !known, 0)
}

/// A method of a widget's view without parameters is called; reloading, going
/// back and going forward are such calls.
pub proof fn law_void_methods_do(
    handle: i64,
    name: &'static str,
    any: Script,
    again: Script,
    back: Script,
    forward: Script,
    replies: Seq<Reply>,
)
    requires
        call_ensures(call_void_method, (handle, name), any),
        call_ensures(reload, (handle,), again),
        call_ensures(go_back, (handle,), back),
        call_ensures(go_forward, (handle,), forward),
    ensures
        calls_plainly(any, replies, handle, name),
        calls_plainly(again, replies, handle, "reload"),
        calls_plainly(back, replies, handle, "goBack"),
        calls_plainly(forward, replies, handle, "goForward"),
{
    reveal_with_fuel(thing, 2);
    reveal_with_fuel(dealt, 3);
}

/// Whether there is a page to go back to is asked of the widget's view by
/// `canGoBack`; the answer is 1 when it says yes, and 0 when it says no, cannot
/// be asked or is not there.
pub proof fn law_can_go_back_does(handle: i64, script: Script, replies: Seq<Reply>)
    requires
        call_ensures(can_go_back, (handle,), script),
    ensures
        script.commands@.len() == 2,
        does(script, replies, 0, Deed::Obtain(Thing::View(handle)), true),
        does(
            script,
            replies,
            1,
            Deed::Call(Thing::View(handle), "canGoBack", "()Z", seq![], Returns::Bool),
            succeeded(replies[0]),
        ),
        ends(
            script,
            replies,
            !succeeded(replies[0]),
            if succeeded(replies[0]) && replies[1] == Reply::Bool(true) {
                1int
            } else {
                0
            },
        ),
{
    reveal_with_fuel(thing, 2);
    reveal_with_fuel(dealt, 3);
}

/// JavaScript is run by `evaluateJavascript` of the widget's view, with the
/// script's text and no Java callback, whether or not there is a callback of the
/// program. Such a callback, any value but the two zeros, is then called with
/// the empty string, whatever became of the JavaScript.
pub proof fn law_evaluate_js_does(
    handle: i64,
    js: String,
    callback: u64,
    script: Script,
    replies: Seq<Reply>,
)
    requires
        call_ensures(evaluate_js, (handle, js, callback), script),
    ensures
        ({
            let known = succeeded(replies[0]);
            let none = callback == 0 || callback == 0x8000_0000_0000_0000;
            &&& script.text@ == js@
            &&& does(script, replies, 0, Deed::Obtain(Thing::View(handle)), true)
            &&& does(script, replies, 1, Deed::OpenFrame(8), known)
            &&& does(script, replies, 2, Deed::Obtain(Thing::Text), known)
            &&& does(
                script,
                replies,
                3,
                Deed::Call(
                    Thing::View(handle),
                    "evaluateJavascript",
                    "(Ljava/lang/String;Landroid/webkit/ValueCallback;)V",
                    seq![Thing::Text, Thing::Null],
                    Returns::Nothing,
                ),
                known && succeeded(replies[2]),
            )
            &&& does(script, replies, 4, Deed::CloseFrame, known)
            &&& none ==> script.commands@.len() == 5
            &&& !none ==> {
                &&& script.commands@.len() == 8
                &&& does(script, replies, 5, Deed::Obtain(Thing::EmptyString), known)
                &&& does(script, replies, 6, Deed::Obtain(Thing::Closure(callback)), known)
                &&& does(
                    script,
                    replies,
                    7,
                    Deed::Invoke(Thing::Closure(callback), Thing::EmptyString),
                    known && succeeded(replies[5]) && succeeded(replies[6]),
                )
            }
            &&& ends(script, replies, !known, 0)
        }),
{
    reveal_with_fuel(thing, 2);
    reveal_with_fuel(dealt, 9);
}

/// From command `at` on, the script removes all cookies by the process's cookie
/// manager, without a Java callback.
pub open spec fn removes_cookies(script: Script, replies: Seq<Reply>, at: int) -> bool {
    let class = Thing::Class("android/webkit/CookieManager");
    &&& does(script, replies, at, Deed::Obtain(class), true)
    &&& does(
        script,
        replies,
        at + 1,
        Deed::CallStatic(class, "getInstance", "()Landroid/webkit/CookieManager;"),
        succeeded(replies[at]),
    )
    &&& does(
        script,
        replies,
        at + 2,
        Deed::Call(
            Thing::From(Box::new(class), "getInstance"),
            "removeAllCookies",
            "(Landroid/webkit/ValueCallback;)V",
            seq![Thing::Null],
            Returns::Nothing,
        ),
        succeeded(replies[at]) && succeeded(replies[at + 1]),
    )
}

/// Clearing cookies removes them all, whatever the widget, within a frame.
pub proof fn law_clear_cookies_does(handle: i64, script: Script, replies: Seq<Reply>)
    requires
        call_ensures(clear_cookies, (handle,), script),
    ensures
        script.commands@.len() == 5,
        does(script, replies, 0, Deed::OpenFrame(8), true),
        removes_cookies(script, replies, 1),
        does(script, replies, 4, Deed::CloseFrame, true),
        ends(script, replies, false, 0),
{
    reveal_with_fuel(thing, 3);
    reveal_with_fuel(dealt, 6);
}

/// An ephemeral session starts with all cookies and all web storage removed,
/// each on its own; any other is left alone.
pub proof fn law_set_ephemeral_does(
    handle: i64,
    ephemeral: i64,
    script: Script,
    replies: Seq<Reply>,
)
    requires
        call_ensures(set_ephemeral, (handle, ephemeral), script),
    ensures
        ephemeral == 0 ==> script.commands@.len() == 0,
        ephemeral != 0 ==> {
            let class = Thing::Class("android/webkit/WebStorage");
            &&& script.commands@.len() == 8
            &&& does(script, replies, 0, Deed::OpenFrame(8), true)
            &&& removes_cookies(script, replies, 1)
            &&& does(script, replies, 4, Deed::Obtain(class), true)
            &&& does(
                script,
                replies,
                5,
                Deed::CallStatic(class, "getInstance", "()Landroid/webkit/WebStorage;"),
                succeeded(replies[4]),
            )
            &&& does(
                script,
                replies,
                6,
                Deed::Call(
                    Thing::From(Box::new(class), "getInstance"),
                    "deleteAllData",
                    "()V",
                    seq![],
                    Returns::Nothing,
                ),
                succeeded(replies[4]) && succeeded(replies[5]),
            )
            &&& does(script, replies, 7, Deed::CloseFrame, true)
            &&& ends(script, replies, false, 0)
        },
{
    reveal_with_fuel(thing, 3);
    reveal_with_fuel(dealt, 9);
}

/// The user agent is set to the text in the settings of the widget's view; the
/// Java string is only made when there are settings.
pub proof fn law_set_user_agent_does(
    handle: i64,
    ua: String,
    script: Script,
    replies: Seq<Reply>,
)
    requires
        call_ensures(set_user_agent, (handle, ua), script),
    ensures
        ({
            let known = succeeded(replies[0]);
            let view = Thing::View(handle);
            &&& script.text@ == ua@
            &&& script.commands@.len() == 6
            &&& does(script, replies, 0, Deed::Obtain(view), true)
            &&& does(script, replies, 1, Deed::OpenFrame(8), known)
            &&& does(
                script,
                replies,
                2,
                Deed::Call(
                    view,
                    "getSettings",
                    "()Landroid/webkit/WebSettings;",
                    seq![],
                    Returns::Object,
                ),
                known,
            )
            &&& does(
                script,
                replies,
                3,
                Deed::Obtain(Thing::Text),
                known && succeeded(replies[2]),
            )
            &&& does(
                script,
                replies,
                4,
                Deed::Call(
                    Thing::From(Box::new(view), "getSettings"),
                    "setUserAgentString",
                    "(Ljava/lang/String;)V",
                    seq![Thing::Text],
                    Returns::Nothing,
                ),
                known && succeeded(replies[2]) && succeeded(replies[3]),
            )
            &&& does(script, replies, 5, Deed::CloseFrame, known)
            &&& ends(script, replies, !known, 0)
        }),
{
    reveal_with_fuel(thing, 3);
    reveal_with_fuel(dealt, 7);
}

/// Nothing but the state of the widget `handle` differs, which there is before
/// and after or neither.
pub open spec fn only_widget_changed(
    before: WebViewStates,
    after: WebViewStates,
    handle: i64,
) -> bool {
    &&& after@.dom() == before@.dom()
    &&& forall|h: i64| h != handle && #[trigger] before@.contains_key(h) ==> after@[h] == before@[h]
}

/// A widget that could be created gets a state without hooks and domains under
/// the handle that is returned; one that could not gets none, and the handle
/// is 0. No other widget is touched.
pub proof fn law_created_widgets(
    before: WebViewStates,
    after: WebViewStates,
    run: Run,
    handle: i64,
)
    requires
        exists|s: &mut WebViewStates|
            *s == before && *final(s) == after && #[trigger] call_ensures(
                create_finished,
                (s, &run),
                handle,
            ),
    ensures
        run.progress().stopped ==> handle == 0 && after@ == before@,
        !run.progress().stopped ==> {
            &&& handle == run.progress().result
            &&& after@.contains_key(handle)
            &&& after@[handle].on_should_navigate == 0
            &&& after@[handle].on_loaded == 0
            &&& after@[handle].on_error == 0
            &&& after@[handle].allowed_domains@.len() == 0
            &&& forall|h: i64|
                h != handle ==> #[trigger] after@.contains_key(h) == before@.contains_key(h) && (
                before@.contains_key(h) ==> after@[h] == before@[h])
        },
{
}

/// A hook of a known widget is stored, and nothing else of it or of any other
/// widget changes; a hook of an unknown widget is ignored.
pub proof fn law_hooks(
    before: WebViewStates,
    a: WebViewStates,
    b: WebViewStates,
    c: WebViewStates,
    handle: i64,
    closure: u64,
)
    requires
        exists|s: &mut WebViewStates|
            *s == before && *final(s) == a && #[trigger] call_ensures(
                set_on_should_navigate,
                (s, handle, closure),
                (),
            ),
        exists|s: &mut WebViewStates|
            *s == before && *final(s) == b && #[trigger] call_ensures(
                set_on_loaded,
                (s, handle, closure),
                (),
            ),
        exists|s: &mut WebViewStates|
            *s == before && *final(s) == c && #[trigger] call_ensures(
                set_on_error,
                (s, handle, closure),
                (),
            ),
    ensures
        only_widget_changed(before, a, handle),
        only_widget_changed(before, b, handle),
        only_widget_changed(before, c, handle),
        before@.contains_key(handle) ==> {
            let was = before@[handle];
            &&& a@[handle].on_should_navigate == closure
            &&& a@[handle].on_loaded == was.on_loaded
            &&& a@[handle].on_error == was.on_error
            &&& a@[handle].allowed_domains == was.allowed_domains
            &&& b@[handle].on_should_navigate == was.on_should_navigate
            &&& b@[handle].on_loaded == closure
            &&& b@[handle].on_error == was.on_error
            &&& b@[handle].allowed_domains == was.allowed_domains
            &&& c@[handle].on_should_navigate == was.on_should_navigate
            &&& c@[handle].on_loaded == was.on_loaded
            &&& c@[handle].on_error == closure
            &&& c@[handle].allowed_domains == was.allowed_domains
        },
{
    assert(a@.dom() =~= before@.dom());
    assert(b@.dom() =~= before@.dom());
    assert(c@.dom() =~= before@.dom());
}

/// Which element of the array domain `i` is: the elements that are strings, in
/// their order.
pub open spec fn picks(elements: Seq<Option<String>>, from: Seq<int>) -> bool {
    &&& forall|i: int| 0 <= i < from.len() ==> 0 <= #[trigger] from[i] < elements.len()
    &&& forall|i: int| 0 <= i < from.len() ==> elements[#[trigger] from[i]] is Some
    &&& forall|i: int, j: int| 0 <= i < j < from.len() ==> from[i] < from[j]
    &&& forall|n: int|
        0 <= n < elements.len() && (#[trigger] elements[n]) is Some ==> from.contains(n)
}

/// The texts of the elements are those of the ones that are strings.
proof fn lemma_texts(elements: Seq<Option<String>>) -> (from: Seq<int>)
    ensures
        picks(elements, from),
        from.len() == texts_of(elements).len(),
        forall|i: int|
            0 <= i < from.len() ==> texts_of(elements)[i] == (
            #[trigger] elements[from[i]]).unwrap()@,
    decreases elements.len(),
{
    if elements.len() == 0 {
        Seq::empty()
    } else {
        let rest = elements.drop_last();
        let last = elements.len() - 1;
        let before = lemma_texts(rest);
        assert forall|n: int| 0 <= n < last implies rest[n] == #[trigger] elements[n] by {}
        assert forall|i: int| 0 <= i < before.len() implies 0 <= #[trigger] before[i] < last
            && elements[before[i]] is Some && texts_of(rest)[i] == elements[before[i]].unwrap()@ by {
            assert(rest[before[i]] == elements[before[i]]);
        }
        if elements.last() is Some {
            let from = before.push(last);
            assert forall|n: int|
                0 <= n < elements.len() && (#[trigger] elements[n]) is Some implies from.contains(
                n,
            ) by {
                if n < last {
                    assert(rest[n] is Some);
                    let i = choose|i: int| 0 <= i < before.len() && before[i] == n;
                    assert(from[i] == n);
                } else {
                    assert(from[before.len() as int] == n);
                }
            }
            from
        } else {
            assert forall|n: int|
                0 <= n < elements.len() && (#[trigger] elements[n]) is Some implies before.contains(
                n,
            ) by {
                assert(rest[n] is Some);
            }
            before
        }
    }
}

/// The domains of a known widget become the texts of exactly the elements that
/// are strings, in their order, in place of the domains it had; its hooks stay,
/// and so does every other widget. An unknown widget is ignored.
pub proof fn law_allowed_domains(
    before: WebViewStates,
    after: WebViewStates,
    handle: i64,
    elements: Vec<Option<String>>,
)
    requires
        exists|s: &mut WebViewStates|
            *s == before && *final(s) == after && #[trigger] call_ensures(
                set_allowed_domains,
                (s, handle, &elements),
                (),
            ),
    ensures
        only_widget_changed(before, after, handle),
        before@.contains_key(handle) ==> {
            let was = before@[handle];
            let now = after@[handle];
            &&& now.on_should_navigate == was.on_should_navigate
            &&& now.on_loaded == was.on_loaded
            &&& now.on_error == was.on_error
            &&& exists|from: Seq<int>| #[trigger]
                picks(elements@, from) && from.len() == now.allowed_domains@.len() && forall|
                    i: int,
                |
                    0 <= i < from.len() ==> (#[trigger] now.allowed_domains@[i])@
                        == elements@[from[i]].unwrap()@
        },
{
    assert(after@.dom() =~= before@.dom());
    if before@.contains_key(handle) {
        let domains = after@[handle].allowed_domains@;
        let from = lemma_texts(elements@);
        assert(domains.len() == texts_of(elements@).len());
        assert forall|i: int| 0 <= i < from.len() implies (#[trigger] domains[i])@
            == elements@[from[i]].unwrap()@ by {
            assert(domain_texts(domains)[i] == domains[i]@);
            assert(elements@[from[i]] is Some);
        }
        assert(picks(elements@, from));
    }
}

/// A table of widgets starts empty and gives of each widget what is kept of it.
pub proof fn law_widget_states(
    empty: WebViewStates,
    states: WebViewStates,
    handle: i64,
    r: Option<&WebViewState>,
)
    requires
        call_ensures(WebViewStates::new, (), empty),
        call_ensures(WebViewStates::get, (&states, handle), r),
    ensures
        !empty@.contains_key(handle),
        r is Some == states@.contains_key(handle),
        r is Some ==> *r.unwrap() == states@[handle],
{
}

/// A run that is done can be completed; a run that wants something done takes
/// any reply to it.
pub proof fn law_runs_accept(run: Run, before: Run, after: Run, op: Option<Op>, reply: Reply)
    requires
        call_ensures(Run::is_done, (&run,), true),
        exists|r: &mut Run|
            *r == before && *final(r) == after && #[trigger] call_ensures(Run::next, (r,), op),
    ensures
        forall|s: &mut WebViewStates| #[trigger] call_requires(create_finished, (s, &run)),
        op is Some ==> (forall|r: &mut Run|
            *r == after ==> #[trigger] call_requires(Run::reply, (r, reply))),
        op is None ==> after.done(),
{
}

} // verus!
