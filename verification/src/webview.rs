//! The WebView widget: its operations as scripts of JNI commands, and the hooks
//! and settings kept for each widget.

use std::collections::HashMap;
use vstd::prelude::*;

use crate::script::{Arg, Args, Command, Op, Returns, Run, Script};
use crate::value::{is_zero, is_zero_number};

verus! {

broadcast use vstd::std_specs::hash::group_hash_axioms;

/// A command whose failure only affects the commands that use it.
pub open spec fn plain(op: Op) -> Command {
    Command { op, only_if: None, essential: false }
}

/// A command that is only performed when command `i` succeeded.
pub open spec fn after(i: usize, op: Op) -> Command {
    Command { op, only_if: Some(i), essential: false }
}

/// A command whose failure ends the script.
pub open spec fn essential(op: Op) -> Command {
    Command { op, only_if: None, essential: true }
}

/// A method call without a result.
pub open spec fn void_call(
    object: usize,
    name: &'static str,
    sig: &'static str,
    args: Args,
) -> Op {
    Op::CallMethod { object, name, sig, args, returns: Returns::Nothing }
}

fn plain_command(op: Op) -> (c: Command)
    ensures
        c == plain(op),
{
    Command { op, only_if: None, essential: false }
}

fn command_after(i: usize, op: Op) -> (c: Command)
    ensures
        c == after(i, op),
{
    Command { op, only_if: Some(i), essential: false }
}

fn essential_command(op: Op) -> (c: Command)
    ensures
        c == essential(op),
{
    Command { op, only_if: None, essential: true }
}

fn void_method(object: usize, name: &'static str, sig: &'static str, args: Args) -> (op: Op)
    ensures
        op == void_call(object, name, sig, args),
{
    Op::CallMethod { object, name, sig, args, returns: Returns::Nothing }
}

/// Makes a WebView with JavaScript and DOM storage enabled and a stock client,
/// so that navigation stays inside the widget.
pub open spec fn create_setup() -> Seq<Command> {
    seq![
        plain(Op::PushLocalFrame(32)),
        essential(Op::GetActivity),
        essential(
            Op::NewObject {
                class: "android/webkit/WebView",
                sig: "(Landroid/content/Context;)V",
                args: Args::One(Arg::Object(1)),
            },
        ),
        plain(
            Op::CallMethod {
                object: 2,
                name: "getSettings",
                sig: "()Landroid/webkit/WebSettings;",
                args: Args::Zero,
                returns: Returns::Object,
            },
        ),
        plain(void_call(3, "setJavaScriptEnabled", "(Z)V", Args::One(Arg::True))),
        plain(void_call(3, "setDomStorageEnabled", "(Z)V", Args::One(Arg::True))),
        plain(
            Op::NewObject { class: "android/webkit/WebViewClient", sig: "()V", args: Args::Zero },
        ),
        plain(
            void_call(
                2,
                "setWebViewClient",
                "(Landroid/webkit/WebViewClient;)V",
                Args::One(Arg::Object(6)),
            ),
        ),
    ]
}

/// The commands that create a WebView and, unless the URL is empty, load it.
pub open spec fn create_commands(with_url: bool) -> Seq<Command> {
    let load = if with_url {
        seq![
            plain(Op::NewString),
            plain(void_call(2, "loadUrl", "(Ljava/lang/String;)V", Args::One(Arg::Object(8)))),
        ]
    } else {
        Seq::empty()
    };
    let at = (8 + load.len()) as usize;
    create_setup() + load + seq![
        essential(Op::NewGlobalRef(2)),
        plain(Op::PopLocalFrame),
        plain(Op::RegisterWidget(at)),
    ]
}

/// The script that creates a WebView. Its result is the widget handle;
/// `create_finished` completes the creation.
pub fn create(url: String) -> (script: Script)
    ensures
        script.text@ == url@,
        script.commands@ == create_commands(url@.len() != 0),
{
    let mut commands: Vec<Command> = Vec::new();
    commands.push(plain_command(Op::PushLocalFrame(32)));
    commands.push(essential_command(Op::GetActivity));
    commands.push(
        essential_command(
            Op::NewObject {
                class: "android/webkit/WebView",
                sig: "(Landroid/content/Context;)V",
                args: Args::One(Arg::Object(1)),
            },
        ),
    );
    commands.push(
        plain_command(
            Op::CallMethod {
                object: 2,
                name: "getSettings",
                sig: "()Landroid/webkit/WebSettings;",
                args: Args::Zero,
                returns: Returns::Object,
            },
        ),
    );
    commands.push(
        plain_command(void_method(3, "setJavaScriptEnabled", "(Z)V", Args::One(Arg::True))),
    );
    commands.push(
        plain_command(void_method(3, "setDomStorageEnabled", "(Z)V", Args::One(Arg::True))),
    );
    commands.push(
        plain_command(
            Op::NewObject { class: "android/webkit/WebViewClient", sig: "()V", args: Args::Zero },
        ),
    );
    commands.push(
        plain_command(
            void_method(
                2,
                "setWebViewClient",
                "(Landroid/webkit/WebViewClient;)V",
                Args::One(Arg::Object(6)),
            ),
        ),
    );
    assert(commands@ =~= create_setup());
    if !url.as_str().is_empty() {
        commands.push(plain_command(Op::NewString));
        commands.push(
            plain_command(
                void_method(2, "loadUrl", "(Ljava/lang/String;)V", Args::One(Arg::Object(8))),
            ),
        );
    }
    let at: usize = commands.len();
    commands.push(essential_command(Op::NewGlobalRef(2)));
    commands.push(plain_command(Op::PopLocalFrame));
    commands.push(plain_command(Op::RegisterWidget(at)));
    assert(commands@ =~= create_commands(url@.len() != 0));
    Script { text: url, commands }
}

/// The commands that call a method of a widget's view with a string.
pub open spec fn string_method_commands(
    handle: i64,
    name: &'static str,
    sig: &'static str,
) -> Seq<Command> {
    seq![
        essential(Op::GetWidget(handle)),
        plain(Op::PushLocalFrame(8)),
        plain(Op::NewString),
        plain(void_call(0, name, sig, Args::One(Arg::Object(2)))),
        plain(Op::PopLocalFrame),
    ]
}

/// Calls a method of a widget's view with a string. An unknown handle is
/// ignored.
pub fn call_string_method(
    handle: i64,
    name: &'static str,
    sig: &'static str,
    text: String,
) -> (script: Script)
    ensures
        script.text@ == text@,
        script.commands@ == string_method_commands(handle, name, sig),
{
    let mut commands: Vec<Command> = Vec::new();
    commands.push(essential_command(Op::GetWidget(handle)));
    commands.push(plain_command(Op::PushLocalFrame(8)));
    commands.push(plain_command(Op::NewString));
    commands.push(plain_command(void_method(0, name, sig, Args::One(Arg::Object(2)))));
    commands.push(plain_command(Op::PopLocalFrame));
    assert(commands@ =~= string_method_commands(handle, name, sig));
    Script { text, commands }
}

/// The commands that call a method of a widget's view without parameters.
pub open spec fn void_method_commands(handle: i64, name: &'static str) -> Seq<Command> {
    seq![essential(Op::GetWidget(handle)), plain(void_call(0, name, "()V", Args::Zero))]
}

/// Calls a method of a widget's view without parameters. An unknown handle is
/// ignored.
pub fn call_void_method(handle: i64, name: &'static str) -> (script: Script)
    ensures
        script.text@ == Seq::<char>::empty(),
        script.commands@ == void_method_commands(handle, name),
{
    let mut commands: Vec<Command> = Vec::new();
    commands.push(essential_command(Op::GetWidget(handle)));
    commands.push(plain_command(void_method(0, name, "()V", Args::Zero)));
    assert(commands@ =~= void_method_commands(handle, name));
    Script { text: String::new(), commands }
}

/// The commands that load a URL: none for the empty one.
pub open spec fn load_url_commands(handle: i64, with_url: bool) -> Seq<Command> {
    if with_url {
        string_method_commands(handle, "loadUrl", "(Ljava/lang/String;)V")
    } else {
        Seq::empty()
    }
}

/// Loads a URL. The empty URL is ignored.
pub fn load_url(handle: i64, url: String) -> (script: Script)
    ensures
        script.text@ == url@,
        script.commands@ == load_url_commands(handle, url@.len() != 0),
{
    if url.as_str().is_empty() {
        return Script { text: url, commands: Vec::new() };
    }
    call_string_method(handle, "loadUrl", "(Ljava/lang/String;)V", url)
}

/// Reloads the page.
pub fn reload(handle: i64) -> (script: Script)
    ensures
        script.text@ == Seq::<char>::empty(),
        script.commands@ == void_method_commands(handle, "reload"),
{
    call_void_method(handle, "reload")
}

/// Goes back one page.
pub fn go_back(handle: i64) -> (script: Script)
    ensures
        script.text@ == Seq::<char>::empty(),
        script.commands@ == void_method_commands(handle, "goBack"),
{
    call_void_method(handle, "goBack")
}

/// Goes forward one page.
pub fn go_forward(handle: i64) -> (script: Script)
    ensures
        script.text@ == Seq::<char>::empty(),
        script.commands@ == void_method_commands(handle, "goForward"),
{
    call_void_method(handle, "goForward")
}

/// The commands that ask a widget's view whether it can go back.
pub open spec fn can_go_back_commands(handle: i64) -> Seq<Command> {
    seq![
        essential(Op::GetWidget(handle)),
        plain(
            Op::CallMethod {
                object: 0,
                name: "canGoBack",
                sig: "()Z",
                args: Args::Zero,
                returns: Returns::Bool,
            },
        ),
    ]
}

/// Asks whether there is a page to go back to: the result is 1 if so, and 0 if
/// not, if the handle is unknown or if the question fails.
pub fn can_go_back(handle: i64) -> (script: Script)
    ensures
        script.text@ == Seq::<char>::empty(),
        script.commands@ == can_go_back_commands(handle),
{
    let mut commands: Vec<Command> = Vec::new();
    commands.push(essential_command(Op::GetWidget(handle)));
    commands.push(
        plain_command(
            Op::CallMethod {
                object: 0,
                name: "canGoBack",
                sig: "()Z",
                args: Args::Zero,
                returns: Returns::Bool,
            },
        ),
    );
    assert(commands@ =~= can_go_back_commands(handle));
    Script { text: String::new(), commands }
}

/// The commands that run JavaScript in a widget's page and then, if there is a
/// callback, call it with the empty string.
pub open spec fn evaluate_js_commands(handle: i64, callback: u64) -> Seq<Command> {
    let evaluate = seq![
        essential(Op::GetWidget(handle)),
        plain(Op::PushLocalFrame(8)),
        plain(Op::NewString),
        plain(
            void_call(
                0,
                "evaluateJavascript",
                "(Ljava/lang/String;Landroid/webkit/ValueCallback;)V",
                Args::Two(Arg::Object(2), Arg::Null),
            ),
        ),
        plain(Op::PopLocalFrame),
    ];
    if is_zero(callback) {
        evaluate
    } else {
        evaluate + seq![
            plain(Op::BoxEmptyString),
            plain(Op::ClosurePointer(callback)),
            plain(Op::CallClosure { closure: 6, arg: 5 }),
        ]
    }
}

/// Runs JavaScript in the page. The Java VM delivers no result, so a callback
/// is called at once with the empty string. A callback equal to the number zero
/// is none.
pub fn evaluate_js(handle: i64, js: String, callback: u64) -> (script: Script)
    ensures
        script.text@ == js@,
        script.commands@ == evaluate_js_commands(handle, callback),
{
    let mut commands: Vec<Command> = Vec::new();
    commands.push(essential_command(Op::GetWidget(handle)));
    commands.push(plain_command(Op::PushLocalFrame(8)));
    commands.push(plain_command(Op::NewString));
    commands.push(
        plain_command(
            void_method(
                0,
                "evaluateJavascript",
                "(Ljava/lang/String;Landroid/webkit/ValueCallback;)V",
                Args::Two(Arg::Object(2), Arg::Null),
            ),
        ),
    );
    commands.push(plain_command(Op::PopLocalFrame));
    if !is_zero_number(callback) {
        commands.push(plain_command(Op::BoxEmptyString));
        commands.push(plain_command(Op::ClosurePointer(callback)));
        commands.push(plain_command(Op::CallClosure { closure: 6, arg: 5 }));
    }
    assert(commands@ =~= evaluate_js_commands(handle, callback));
    Script { text: js, commands }
}

/// From command `at` on: remove all cookies of the process.
pub open spec fn remove_cookies(at: usize) -> Seq<Command> {
    seq![
        plain(Op::FindClass("android/webkit/CookieManager")),
        plain(
            Op::CallStaticMethod {
                of: at,
                name: "getInstance",
                sig: "()Landroid/webkit/CookieManager;",
            },
        ),
        plain(
            void_call(
                (at + 1) as usize,
                "removeAllCookies",
                "(Landroid/webkit/ValueCallback;)V",
                Args::One(Arg::Null),
            ),
        ),
    ]
}

fn push_remove_cookies(commands: &mut Vec<Command>)
    requires
        old(commands)@.len() < usize::MAX,
    ensures
        final(commands)@ == old(commands)@ + remove_cookies(old(commands)@.len() as usize),
{
    let ghost before = commands@;
    let at: usize = commands.len();
    commands.push(plain_command(Op::FindClass("android/webkit/CookieManager")));
    commands.push(
        plain_command(
            Op::CallStaticMethod {
                of: at,
                name: "getInstance",
                sig: "()Landroid/webkit/CookieManager;",
            },
        ),
    );
    commands.push(
        plain_command(
            void_method(
                at + 1,
                "removeAllCookies",
                "(Landroid/webkit/ValueCallback;)V",
                Args::One(Arg::Null),
            ),
        ),
    );
    assert(commands@ =~= before + remove_cookies(at));
}

/// The commands that remove all cookies.
pub open spec fn clear_cookies_commands() -> Seq<Command> {
    seq![plain(Op::PushLocalFrame(8))] + remove_cookies(1) + seq![plain(Op::PopLocalFrame)]
}

/// Removes all cookies. Cookies belong to the process, so the handle does not
/// matter.
pub fn clear_cookies(_handle: i64) -> (script: Script)
    ensures
        script.text@ == Seq::<char>::empty(),
        script.commands@ == clear_cookies_commands(),
{
    let mut commands: Vec<Command> = Vec::new();
    commands.push(plain_command(Op::PushLocalFrame(8)));
    push_remove_cookies(&mut commands);
    commands.push(plain_command(Op::PopLocalFrame));
    assert(commands@ =~= clear_cookies_commands());
    Script { text: String::new(), commands }
}

/// The commands that set the user agent of a widget's view.
pub open spec fn set_user_agent_commands(handle: i64) -> Seq<Command> {
    seq![
        essential(Op::GetWidget(handle)),
        plain(Op::PushLocalFrame(8)),
        plain(
            Op::CallMethod {
                object: 0,
                name: "getSettings",
                sig: "()Landroid/webkit/WebSettings;",
                args: Args::Zero,
                returns: Returns::Object,
            },
        ),
        after(2, Op::NewString),
        plain(
            void_call(
                2,
                "setUserAgentString",
                "(Ljava/lang/String;)V",
                Args::One(Arg::Object(3)),
            ),
        ),
        plain(Op::PopLocalFrame),
    ]
}

/// Sets the user agent string.
pub fn set_user_agent(handle: i64, ua: String) -> (script: Script)
    ensures
        script.text@ == ua@,
        script.commands@ == set_user_agent_commands(handle),
{
    let mut commands: Vec<Command> = Vec::new();
    commands.push(essential_command(Op::GetWidget(handle)));
    commands.push(plain_command(Op::PushLocalFrame(8)));
    commands.push(
        plain_command(
            Op::CallMethod {
                object: 0,
                name: "getSettings",
                sig: "()Landroid/webkit/WebSettings;",
                args: Args::Zero,
                returns: Returns::Object,
            },
        ),
    );
    commands.push(command_after(2, Op::NewString));
    commands.push(
        plain_command(
            void_method(
                2,
                "setUserAgentString",
                "(Ljava/lang/String;)V",
                Args::One(Arg::Object(3)),
            ),
        ),
    );
    commands.push(plain_command(Op::PopLocalFrame));
    assert(commands@ =~= set_user_agent_commands(handle));
    Script { text: ua, commands }
}

/// The commands that remove all cookies and all web storage.
pub open spec fn ephemeral_commands() -> Seq<Command> {
    seq![plain(Op::PushLocalFrame(8))] + remove_cookies(1) + seq![
        plain(Op::FindClass("android/webkit/WebStorage")),
        plain(
            Op::CallStaticMethod {
                of: 4,
                name: "getInstance",
                sig: "()Landroid/webkit/WebStorage;",
            },
        ),
        plain(void_call(5, "deleteAllData", "()V", Args::Zero)),
        plain(Op::PopLocalFrame),
    ]
}

/// Makes a session ephemeral as far as the process-wide stores allow: removes
/// all cookies and all web storage. Does nothing when `ephemeral` is 0.
pub fn set_ephemeral(_handle: i64, ephemeral: i64) -> (script: Script)
    ensures
        script.text@ == Seq::<char>::empty(),
        script.commands@ == (if ephemeral != 0 {
            ephemeral_commands()
        } else {
            Seq::<Command>::empty()
        }),
{
    let mut commands: Vec<Command> = Vec::new();
    if ephemeral != 0 {
        commands.push(plain_command(Op::PushLocalFrame(8)));
        push_remove_cookies(&mut commands);
        commands.push(plain_command(Op::FindClass("android/webkit/WebStorage")));
        commands.push(
            plain_command(
                Op::CallStaticMethod {
                    of: 4,
                    name: "getInstance",
                    sig: "()Landroid/webkit/WebStorage;",
                },
            ),
        );
        commands.push(plain_command(void_method(5, "deleteAllData", "()V", Args::Zero)));
        commands.push(plain_command(Op::PopLocalFrame));
        assert(commands@ =~= ephemeral_commands());
    }
    Script { text: String::new(), commands }
}

/// The hooks and settings of one widget. A hook is a closure value, the number
/// zero when it is not set.
pub struct WebViewState {
    pub on_should_navigate: u64,
    pub on_loaded: u64,
    pub on_error: u64,
    pub allowed_domains: Vec<String>,
}

/// The hooks and settings of all widgets, by handle.
pub struct WebViewStates {
    states: HashMap<i64, WebViewState>,
}

impl View for WebViewStates {
    type V = Map<i64, WebViewState>;

    closed spec fn view(&self) -> Map<i64, WebViewState> {
        self.states@
    }
}

/// The content of each domain.
pub open spec fn domain_texts(domains: Seq<String>) -> Seq<Seq<char>> {
    domains.map_values(|d: String| d@)
}

/// No hook is set and no domain is listed.
pub open spec fn is_fresh(state: WebViewState) -> bool {
    &&& state.on_should_navigate == 0
    &&& state.on_loaded == 0
    &&& state.on_error == 0
    &&& state.allowed_domains@.len() == 0
}

impl WebViewStates {
    /// No widgets.
    pub fn new() -> (states: WebViewStates)
        ensures
            states@ == Map::<i64, WebViewState>::empty(),
    {
        WebViewStates { states: HashMap::new() }
    }

    /// The hooks and settings of a widget, if the handle is known.
    pub fn get(&self, handle: i64) -> (state: Option<&WebViewState>)
        ensures
            match state {
                Some(s) => self@.contains_key(handle) && *s == self@[handle],
                None => !self@.contains_key(handle),
            },
    {
        self.states.get(&handle)
    }
}

/// Completes the creation of a WebView: keeps fresh hooks and settings for the
/// handle that the run of the `create` script gave and returns it; 0 when the
/// run failed.
pub fn create_finished(states: &mut WebViewStates, run: &Run) -> (handle: i64)
    requires
        run.done(),
    ensures
        run.progress().stopped ==> handle == 0 && final(states)@ == old(states)@,
        !run.progress().stopped ==> {
            &&& handle == run.progress().result
            &&& final(states)@ == old(states)@.insert(handle, final(states)@[handle])
            &&& is_fresh(final(states)@[handle])
        },
{
    if run.failed() {
        return 0;
    }
    let handle: i64 = run.result();
    states.states.insert(
        handle,
        WebViewState {
            on_should_navigate: 0,
            on_loaded: 0,
            on_error: 0,
            allowed_domains: Vec::new(),
        },
    );
    handle
}

/// The texts of the elements that are strings, in order.
pub open spec fn texts_of(elements: Seq<Option<String>>) -> Seq<Seq<char>>
    decreases elements.len(),
{
    if elements.len() == 0 {
        Seq::empty()
    } else {
        let before = texts_of(elements.drop_last());
        match elements.last() {
            Some(text) => before.push(text@),
            None => before,
        }
    }
}

/// Sets the domains that a widget may visit. Of the elements of the given
/// array, those that are not strings are passed over. An unknown handle is
/// ignored.
pub fn set_allowed_domains(
    states: &mut WebViewStates,
    handle: i64,
    elements: &Vec<Option<String>>,
)
    ensures
        !old(states)@.contains_key(handle) ==> final(states)@ == old(states)@,
        old(states)@.contains_key(handle) ==> {
            let was = old(states)@[handle];
            let now = final(states)@[handle];
            &&& final(states)@ == old(states)@.insert(handle, now)
            &&& domain_texts(now.allowed_domains@) == texts_of(elements@)
            &&& now.on_should_navigate == was.on_should_navigate
            &&& now.on_loaded == was.on_loaded
            &&& now.on_error == was.on_error
        },
{
    let mut domains: Vec<String> = Vec::new();
    assert(elements@.take(0) =~= Seq::<Option<String>>::empty());
    assert(domain_texts(domains@) =~= texts_of(elements@.take(0)));
    for i in 0..elements.len()
        invariant
            domain_texts(domains@) == texts_of(elements@.take(i as int)),
    {
        let ghost before = domains@;
        assert(elements@.take(i + 1).drop_last() =~= elements@.take(i as int));
        if let Some(text) = &elements[i] {
            domains.push(text.clone());
            assert(domain_texts(domains@) =~= domain_texts(before).push(text@));
        }
    }
    assert(elements@.take(elements@.len() as int) =~= elements@);
    if let Some(mut state) = states.states.remove(&handle) {
        state.allowed_domains = domains;
        states.states.insert(handle, state);
    }
}

/// Sets the hook that is asked before a navigation. An unknown handle is
/// ignored.
pub fn set_on_should_navigate(states: &mut WebViewStates, handle: i64, closure: u64)
    ensures
        final(states)@ == (if old(states)@.contains_key(handle) {
            old(states)@.insert(
                handle,
                WebViewState { on_should_navigate: closure, ..old(states)@[handle] },
            )
        } else {
            old(states)@
        }),
{
    let ghost before = states@;
    if let Some(mut state) = states.states.remove(&handle) {
        state.on_should_navigate = closure;
        states.states.insert(handle, state);
    }
    assert(before.contains_key(handle) || states@ =~= before);
}

/// Sets the hook that is told when a page was loaded. An unknown handle is
/// ignored.
pub fn set_on_loaded(states: &mut WebViewStates, handle: i64, closure: u64)
    ensures
        final(states)@ == (if old(states)@.contains_key(handle) {
            old(states)@.insert(handle, WebViewState { on_loaded: closure, ..old(states)@[handle] })
        } else {
            old(states)@
        }),
{
    let ghost before = states@;
    if let Some(mut state) = states.states.remove(&handle) {
        state.on_loaded = closure;
        states.states.insert(handle, state);
    }
    assert(before.contains_key(handle) || states@ =~= before);
}

/// Sets the hook that is told when a page failed to load. An unknown handle is
/// ignored.
pub fn set_on_error(states: &mut WebViewStates, handle: i64, closure: u64)
    ensures
        final(states)@ == (if old(states)@.contains_key(handle) {
            old(states)@.insert(handle, WebViewState { on_error: closure, ..old(states)@[handle] })
        } else {
            old(states)@
        }),
{
    let ghost before = states@;
    if let Some(mut state) = states.states.remove(&handle) {
        state.on_error = closure;
        states.states.insert(handle, state);
    }
    assert(before.contains_key(handle) || states@ =~= before);
}

} // verus!
