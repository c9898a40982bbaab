use perry::script::{Arg, Args, Op, Reply, Returns, Run, Script};
use perry::webview::{
    call_string_method, call_void_method, can_go_back, clear_cookies, create, create_finished,
    evaluate_js, go_back, go_forward, load_url, reload, set_allowed_domains, set_ephemeral,
    set_on_error, set_on_loaded, set_on_should_navigate, set_user_agent, WebViewStates,
};

/// Carries a script out; `reply` answers each operation.
fn drive(script: Script, reply: &dyn Fn(&Op) -> Reply) -> (Vec<Op>, Run) {
    let mut run = Run::new(script);
    let mut ops = Vec::new();
    while let Some(op) = run.next() {
        let answer = reply(&op);
        ops.push(op);
        run.reply(answer);
    }
    assert!(run.is_done());
    (ops, run)
}

fn fine(op: &Op) -> Reply {
    match op {
        Op::RegisterWidget(_) => Reply::Handle(42),
        Op::CallMethod { returns: Returns::Bool, .. } => Reply::Bool(true),
        Op::ClosurePointer(_) => Reply::Pointer(0x1_0000),
        _ => Reply::Done,
    }
}

fn names(ops: &[Op]) -> Vec<&'static str> {
    let mut names = Vec::new();
    for op in ops {
        match op {
            Op::CallMethod { name, .. } => names.push(*name),
            Op::CallStaticMethod { name, .. } => names.push(*name),
            _ => {}
        }
    }
    names
}

fn frames(ops: &[Op]) -> (usize, usize) {
    let pushes = ops.iter().filter(|op| matches!(op, Op::PushLocalFrame(_))).count();
    let pops = ops.iter().filter(|op| matches!(op, Op::PopLocalFrame)).count();
    (pushes, pops)
}

#[test]
fn create_sets_up_and_loads() {
    let (ops, run) = drive(create("https://a.example".to_string()), &fine);
    assert_eq!(run.script_text(), "https://a.example");
    assert_eq!(ops.len(), 13);
    assert_eq!(ops[0], Op::PushLocalFrame(32));
    assert_eq!(
        ops[2],
        Op::NewObject {
            class: "android/webkit/WebView",
            sig: "(Landroid/content/Context;)V",
            args: Args::One(Arg::Object(1)),
        }
    );
    assert_eq!(
        names(&ops),
        vec![
            "getSettings",
            "setJavaScriptEnabled",
            "setDomStorageEnabled",
            "setWebViewClient",
            "loadUrl"
        ]
    );
    assert_eq!(ops[10], Op::NewGlobalRef(2));
    assert_eq!(ops[11], Op::PopLocalFrame);
    assert_eq!(ops[12], Op::RegisterWidget(10));
    let mut states = WebViewStates::new();
    assert_eq!(create_finished(&mut states, &run), 42);
    let state = states.get(42).unwrap();
    assert_eq!(state.on_should_navigate, 0);
    assert_eq!(state.on_loaded, 0);
    assert_eq!(state.on_error, 0);
    assert!(state.allowed_domains.is_empty());
}

#[test]
fn create_without_url_loads_nothing() {
    let (ops, run) = drive(create(String::new()), &fine);
    assert_eq!(ops.len(), 11);
    assert!(!names(&ops).contains(&"loadUrl"));
    assert_eq!(ops[10], Op::RegisterWidget(8));
    assert_eq!(run.result(), 42);
}

#[test]
fn create_fails_without_a_webview() {
    let (ops, run) = drive(create("u".to_string()), &|op| match op {
        Op::NewObject { class: "android/webkit/WebView", .. } => Reply::Failed,
        _ => fine(op),
    });
    assert_eq!(ops.len(), 4);
    assert_eq!(ops[3], Op::PopLocalFrame);
    assert!(run.failed());
    let mut states = WebViewStates::new();
    assert_eq!(create_finished(&mut states, &run), 0);
    assert!(states.get(0).is_none());
}

#[test]
fn create_fails_without_a_global_reference() {
    let (ops, run) = drive(create("u".to_string()), &|op| match op {
        Op::NewGlobalRef(_) => Reply::Failed,
        _ => fine(op),
    });
    assert_eq!(frames(&ops), (1, 1));
    assert!(!ops.iter().any(|op| matches!(op, Op::RegisterWidget(_))));
    let mut states = WebViewStates::new();
    assert_eq!(create_finished(&mut states, &run), 0);
}

#[test]
fn create_goes_on_without_settings_client_or_string() {
    let (ops, run) = drive(create("u".to_string()), &|op| match op {
        Op::CallMethod { name: "getSettings", .. } => Reply::Failed,
        Op::NewObject { class: "android/webkit/WebViewClient", .. } => Reply::Failed,
        Op::NewString => Reply::Failed,
        _ => fine(op),
    });
    assert_eq!(names(&ops), vec!["getSettings"]);
    assert_eq!(run.result(), 42);
    assert_eq!(frames(&ops), (1, 1));
}

#[test]
fn load_url_calls_the_view() {
    let (ops, run) = drive(load_url(7, "https://a.example".to_string()), &fine);
    assert_eq!(run.script_text(), "https://a.example");
    assert_eq!(
        ops,
        vec![
            Op::GetWidget(7),
            Op::PushLocalFrame(8),
            Op::NewString,
            Op::CallMethod {
                object: 0,
                name: "loadUrl",
                sig: "(Ljava/lang/String;)V",
                args: Args::One(Arg::Object(2)),
                returns: Returns::Nothing,
            },
            Op::PopLocalFrame,
        ]
    );
}

#[test]
fn load_url_ignores_the_empty_url() {
    let (ops, _) = drive(load_url(7, String::new()), &fine);
    assert!(ops.is_empty());
}

#[test]
fn a_failed_string_skips_the_call_but_not_the_frame() {
    let (ops, _) = drive(
        call_string_method(7, "loadUrl", "(Ljava/lang/String;)V", "x".to_string()),
        &|op| match op {
            Op::NewString => Reply::Failed,
            _ => fine(op),
        },
    );
    assert_eq!(
        ops,
        vec![Op::GetWidget(7), Op::PushLocalFrame(8), Op::NewString, Op::PopLocalFrame]
    );
}

#[test]
fn navigation_calls_one_method() {
    let scripts = vec![
        (reload(7), "reload"),
        (go_back(7), "goBack"),
        (go_forward(7), "goForward"),
        (call_void_method(7, "stopLoading"), "stopLoading"),
    ];
    for (script, name) in scripts {
        let (ops, _) = drive(script, &fine);
        assert_eq!(
            ops,
            vec![
                Op::GetWidget(7),
                Op::CallMethod {
                    object: 0,
                    name,
                    sig: "()V",
                    args: Args::Zero,
                    returns: Returns::Nothing,
                },
            ]
        );
    }
}

#[test]
fn unknown_widgets_are_ignored() {
    let missing = |op: &Op| match op {
        Op::GetWidget(_) => Reply::Failed,
        _ => fine(op),
    };
    let scripts = vec![
        load_url(9, "u".to_string()),
        reload(9),
        can_go_back(9),
        evaluate_js(9, "1".to_string(), 0x7FFD_0000_0001_0000),
        set_user_agent(9, "ua".to_string()),
    ];
    for script in scripts {
        let (ops, run) = drive(script, &missing);
        assert_eq!(ops, vec![Op::GetWidget(9)]);
        assert_eq!(run.result(), 0);
    }
}

#[test]
fn can_go_back_answers() {
    let (ops, run) = drive(can_go_back(7), &fine);
    assert_eq!(ops.len(), 2);
    assert_eq!(run.result(), 1);
    let (_, run) = drive(can_go_back(7), &|op| match op {
        Op::CallMethod { .. } => Reply::Bool(false),
        _ => fine(op),
    });
    assert_eq!(run.result(), 0);
    let (_, run) = drive(can_go_back(7), &|op| match op {
        Op::CallMethod { .. } => Reply::Failed,
        _ => fine(op),
    });
    assert_eq!(run.result(), 0);
}

#[test]
fn evaluate_js_calls_back_with_the_empty_string() {
    let callback = 0x7FFD_0000_0001_0000;
    let (ops, run) = drive(evaluate_js(7, "1+1".to_string(), callback), &fine);
    assert_eq!(run.script_text(), "1+1");
    assert_eq!(
        &ops[3..],
        &[
            Op::CallMethod {
                object: 0,
                name: "evaluateJavascript",
                sig: "(Ljava/lang/String;Landroid/webkit/ValueCallback;)V",
                args: Args::Two(Arg::Object(2), Arg::Null),
                returns: Returns::Nothing,
            },
            Op::PopLocalFrame,
            Op::BoxEmptyString,
            Op::ClosurePointer(callback),
            Op::CallClosure { closure: 6, arg: 5 },
        ]
    );
}

#[test]
fn evaluate_js_calls_back_though_the_script_failed() {
    let (ops, _) = drive(evaluate_js(7, "1".to_string(), 5), &|op| match op {
        Op::NewString => Reply::Failed,
        _ => fine(op),
    });
    assert!(names(&ops).is_empty());
    assert_eq!(ops.last(), Some(&Op::CallClosure { closure: 6, arg: 5 }));
}

#[test]
fn evaluate_js_without_callback_calls_nothing() {
    for zero in [0u64, (-0.0f64).to_bits()] {
        let (ops, _) = drive(evaluate_js(7, "1".to_string(), zero), &fine);
        assert_eq!(ops.len(), 5);
    }
    let (ops, _) = drive(evaluate_js(7, "1".to_string(), 5), &|op| match op {
        Op::ClosurePointer(_) => Reply::Pointer(0),
        _ => fine(op),
    });
    assert!(!ops.iter().any(|op| matches!(op, Op::CallClosure { .. })));
}

#[test]
fn clear_cookies_removes_all() {
    let (ops, _) = drive(clear_cookies(7), &fine);
    assert_eq!(
        ops,
        vec![
            Op::PushLocalFrame(8),
            Op::FindClass("android/webkit/CookieManager"),
            Op::CallStaticMethod {
                of: 1,
                name: "getInstance",
                sig: "()Landroid/webkit/CookieManager;",
            },
            Op::CallMethod {
                object: 2,
                name: "removeAllCookies",
                sig: "(Landroid/webkit/ValueCallback;)V",
                args: Args::One(Arg::Null),
                returns: Returns::Nothing,
            },
            Op::PopLocalFrame,
        ]
    );
}

#[test]
fn user_agent_needs_the_settings() {
    let (ops, run) = drive(set_user_agent(7, "ua/1".to_string()), &fine);
    assert_eq!(run.script_text(), "ua/1");
    assert_eq!(names(&ops), vec!["getSettings", "setUserAgentString"]);
    let (ops, _) = drive(set_user_agent(7, "ua/1".to_string()), &|op| match op {
        Op::CallMethod { name: "getSettings", .. } => Reply::Failed,
        _ => fine(op),
    });
    assert!(!ops.contains(&Op::NewString));
    assert_eq!(frames(&ops), (1, 1));
}

#[test]
fn ephemeral_clears_cookies_and_storage() {
    let (ops, _) = drive(set_ephemeral(7, 1), &fine);
    assert_eq!(
        names(&ops),
        vec!["getInstance", "removeAllCookies", "getInstance", "deleteAllData"]
    );
    let (ops, _) = drive(set_ephemeral(7, 1), &|op| match op {
        Op::FindClass("android/webkit/CookieManager") => Reply::Failed,
        _ => fine(op),
    });
    assert_eq!(names(&ops), vec!["getInstance", "deleteAllData"]);
    let (ops, _) = drive(set_ephemeral(7, 0), &fine);
    assert!(ops.is_empty());
}

#[test]
fn the_number_of_a_command_is_its_place_in_the_script() {
    let mut run = Run::new(set_user_agent(7, "ua".to_string()));
    run.next();
    assert_eq!(run.number(), 0);
    run.reply(Reply::Done);
    run.next();
    run.reply(Reply::Done);
    run.next();
    run.reply(Reply::Failed);
    assert_eq!(run.next(), Some(Op::PopLocalFrame));
    assert_eq!(run.number(), 5);
}

fn one_widget() -> WebViewStates {
    let (_, run) = drive(create(String::new()), &fine);
    let mut states = WebViewStates::new();
    create_finished(&mut states, &run);
    states
}

#[test]
fn hooks_are_kept() {
    let mut states = one_widget();
    set_on_should_navigate(&mut states, 42, 1);
    set_on_loaded(&mut states, 42, 2);
    set_on_error(&mut states, 42, 3);
    let state = states.get(42).unwrap();
    assert_eq!((state.on_should_navigate, state.on_loaded, state.on_error), (1, 2, 3));
}

#[test]
fn hooks_of_unknown_widgets_are_dropped() {
    let mut states = one_widget();
    set_on_should_navigate(&mut states, 1, 1);
    set_on_loaded(&mut states, 1, 2);
    set_on_error(&mut states, 1, 3);
    set_allowed_domains(&mut states, 1, &vec![Some("a".to_string())]);
    assert!(states.get(1).is_none());
    assert_eq!(states.get(42).unwrap().on_loaded, 0);
}

#[test]
fn allowed_domains_pass_over_what_is_no_string() {
    let mut states = one_widget();
    set_on_loaded(&mut states, 42, 2);
    let elements = vec![Some("a.example".to_string()), None, Some("b.example".to_string())];
    set_allowed_domains(&mut states, 42, &elements);
    let state = states.get(42).unwrap();
    assert_eq!(state.allowed_domains, vec!["a.example".to_string(), "b.example".to_string()]);
    assert_eq!(state.on_loaded, 2);
    set_allowed_domains(&mut states, 42, &Vec::new());
    assert!(states.get(42).unwrap().allowed_domains.is_empty());
}
