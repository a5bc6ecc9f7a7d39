//! Actions, keys, injection, tasks.

use bytes::Bytes;
use std::sync::atomic::AtomicBool;
use streamaid::computer_use::{
    actions_from_model_json, extract_json_object, grab_jpeg, production_model, run_task,
    run_task_while, vision_reply, ActionModel, Answers, DoneModel, LlmActionModel, StubClickTypeModel, TaskRun, Todo,
    MAX_STEPS,
};
use streamaid::config::LlmConfig;
use streamaid::float::Real;
use streamaid::hub::Hub;
use streamaid::inject::{FakeInjector, HidEvent, HidState, Injected, Injector};
use streamaid::input::{
    accept_png, clip_limit, display_for_ffmpeg_screen, is_png, parse_control_json, pick_display,
    Action, DisplayInfo, MouseButton,
};
use streamaid::json::Json;
use streamaid::keys::{flags_from_mods, mac_keycode, modifier_flag};
use streamaid::protocol::{TYPE_FRAG, TYPE_SNAP};
use streamaid::snapshot::Snapshot;

fn j(text: &str) -> Json {
    Json::parse(text).unwrap()
}

fn r(x: f64) -> Real {
    Real { bits: x.to_bits() }
}

#[test]
fn fake_records_click_and_type_with_clamped_coords() {
    let mut inj = FakeInjector::new();
    inj.apply(&Action::click(r(1.5), r(-0.2)).clamp_coords());
    inj.apply(&Action::Type { text: "hello".into() });
    assert_eq!(
        *inj.recorded(),
        vec![Injected::click(r(1.0), r(0.0)), Injected::Type { text: "hello".into() }]
    );
}

#[test]
fn parse_control_json_click() {
    let v = j(r#"{"type":"control","action":"click","x":0.5,"y":0.25}"#);
    assert_eq!(parse_control_json(&v), Some(Action::click(r(0.5), r(0.25))));
}

#[test]
fn parse_right_click_down_up_and_dblclick() {
    let right = j(r#"{"action":"click","x":0.2,"y":0.3,"button":"right"}"#);
    assert_eq!(
        parse_control_json(&right),
        Some(Action::Click { x: r(0.2), y: r(0.3), button: MouseButton::Right, clicks: 1 })
    );
    let down = j(r#"{"action":"down","x":0.1,"y":0.2,"button":2,"clicks":1}"#);
    assert_eq!(
        parse_control_json(&down),
        Some(Action::Down { x: r(0.1), y: r(0.2), button: MouseButton::Right, clicks: 1 })
    );
    let up = j(r#"{"action":"mouseup","x":0.4,"y":0.5,"button":0}"#);
    assert_eq!(
        parse_control_json(&up),
        Some(Action::Up { x: r(0.4), y: r(0.5), button: MouseButton::Left, clicks: 1 })
    );
    let dbl = j(r#"{"action":"dblclick","x":0.5,"y":0.5}"#);
    match parse_control_json(&dbl) {
        Some(Action::Click { clicks, button, .. }) => {
            assert_eq!(clicks, 2);
            assert_eq!(button, MouseButton::Left);
        }
        other => panic!("{other:?}"),
    }
}

#[test]
fn parse_key_with_modifiers_and_paste() {
    let v = j(r#"{"action":"keydown","key":"c","modifiers":["Meta"]}"#);
    assert_eq!(
        parse_control_json(&v),
        Some(Action::Key { key: "c".into(), down: Some(true), modifiers: vec!["Meta".into()] })
    );
    let paste = j(r#"{"action":"paste","text":"hello from clip"}"#);
    assert_eq!(
        parse_control_json(&paste),
        Some(Action::Paste { text: "hello from clip".into() })
    );
    let clip = j(r#"{"action":"clipboard","text":"abc"}"#);
    assert_eq!(parse_control_json(&clip), Some(Action::Clipboard { text: "abc".into() }));
}

#[test]
fn an_unknown_action_is_none() {
    assert_eq!(parse_control_json(&j(r#"{"action":"dance"}"#)), None);
    assert_eq!(parse_control_json(&j(r#"{"x":1}"#)), None);
    assert_eq!(parse_control_json(&j("[]")), None);
}

#[test]
fn fake_clipboard_and_right_click() {
    let mut inj = FakeInjector::new();
    inj.apply(&Action::Click { x: r(0.2), y: r(0.3), button: MouseButton::Right, clicks: 1 });
    inj.apply(&Action::Down { x: r(0.2), y: r(0.3), button: MouseButton::Left, clicks: 1 });
    inj.apply(&Action::Move { x: r(0.8), y: r(0.9), button: Some(MouseButton::Left) });
    inj.apply(&Action::Up { x: r(0.8), y: r(0.9), button: MouseButton::Left, clicks: 1 });
    inj.apply(&Action::Paste { text: "pasted".into() });
    assert_eq!(inj.clipboard_get().as_deref(), Some("pasted"));
    let rec = inj.recorded();
    assert!(matches!(rec[0], Injected::Click { button: MouseButton::Right, .. }));
    assert!(matches!(rec[1], Injected::Down { .. }));
    assert!(matches!(rec[2], Injected::Move { .. }));
    assert!(matches!(rec[3], Injected::Up { .. }));
    assert_eq!(rec[4], Injected::Paste { text: "pasted".into() });
}

#[test]
fn unknown_key_does_not_map_to_letter_a() {
    assert_eq!(mac_keycode("Enter"), Some(36));
    assert_eq!(mac_keycode("c"), Some(8));
    assert_eq!(mac_keycode("KeyC"), Some(8));
    assert_eq!(mac_keycode("Meta"), Some(55));
    assert_eq!(mac_keycode("F1"), Some(122));
    assert_eq!(mac_keycode("Unidentified"), None);
    assert_eq!(mac_keycode("F99"), None);
    assert_eq!(mac_keycode(""), None);
    assert_ne!(mac_keycode("Unidentified"), Some(0));
}

#[test]
fn modifiers_are_flags() {
    assert_ne!(modifier_flag("Meta"), 0);
    assert_eq!(modifier_flag("nothing"), 0);
    let both = flags_from_mods(&vec!["Meta".to_string(), "Shift".to_string()], 0);
    assert_eq!(both, modifier_flag("Meta") | modifier_flag("Shift"));
    assert_eq!(flags_from_mods(&Vec::new(), modifier_flag("Shift")), modifier_flag("Shift"));
}

#[test]
fn copy_shortcut_requests_clipboard_read() {
    let copy = Action::Key { key: "c".into(), down: Some(true), modifiers: vec!["Meta".into()] };
    assert!(copy.requests_clipboard_read());
    let type_c = Action::Type { text: "c".into() };
    assert!(!type_c.requests_clipboard_read());
}

#[test]
fn a_click_is_moved_to_pressed_and_released() {
    let mut hid = HidState::new();
    let events = hid.plan(&Action::click(r(0.5), r(0.5)));
    let presses = events.iter().filter(|e| matches!(e, HidEvent::Mouse { kind: 1, .. })).count();
    let releases = events.iter().filter(|e| matches!(e, HidEvent::Mouse { kind: 2, .. })).count();
    assert_eq!((presses, releases), (1, 1));
    let dragged = {
        hid.plan(&Action::Down { x: r(0.1), y: r(0.1), button: MouseButton::Left, clicks: 1 });
        hid.plan(&Action::Move { x: r(0.2), y: r(0.2), button: None })
    };
    assert!(dragged.iter().any(|e| matches!(e, HidEvent::Mouse { kind: 6, .. })));
}

#[test]
fn what_is_no_png_is_not_taken() {
    let png = [0x89, 0x50, 0x4E, 0x47, 0x0D, 0x0A, 0x1A, 0x0A, 0, 1];
    assert!(is_png(&png));
    assert!(!is_png(b"GIF89a"));
    assert!(accept_png(png.to_vec()).is_some());
    assert!(accept_png(b"GIF89a".to_vec()).is_none());
    assert_eq!(clip_limit("abc".to_string()), "abc");
}

#[test]
fn a_display_is_picked_by_its_input() {
    let ds = vec![
        DisplayInfo { id: "2:".into(), ..DisplayInfo::default() },
        DisplayInfo { id: "3:".into(), ..DisplayInfo::default() },
    ];
    assert_eq!(pick_display("3", &ds).unwrap().id, "3:");
    assert!(pick_display("9:", &ds).is_none());
    assert_eq!(display_for_ffmpeg_screen(0, &ds).unwrap().id, "2:");
    assert!(display_for_ffmpeg_screen(5, &ds).is_none());
}

#[test]
fn stub_click_then_type_then_done() {
    let mut inj = FakeInjector::new();
    let model = StubClickTypeModel::default();
    let cancel = AtomicBool::new(false);
    let applied = run_task("open notes", &model, &mut inj, b"", MAX_STEPS, &cancel);
    assert_eq!(
        applied,
        vec![
            Action::click(r(0.5), r(0.5)),
            Action::Type { text: "hello".into() },
            Action::Done
        ]
    );
    assert_eq!(
        *inj.recorded(),
        vec![Injected::click(r(0.5), r(0.5)), Injected::Type { text: "hello".into() }]
    );
}

#[test]
fn cancel_stops_loop() {
    let mut inj = FakeInjector::new();
    let model = StubClickTypeModel::default();
    let cancel = AtomicBool::new(true);
    let applied = run_task("x", &model, &mut inj, b"", MAX_STEPS, &cancel);
    assert!(applied.is_empty());
    assert!(inj.recorded().is_empty());
}

#[test]
fn cancel_is_asked_before_every_action() {
    let model = StubClickTypeModel::default();
    let run = |answers: Vec<bool>| {
        let mut inj = FakeInjector::new();
        let mut cancel = Answers::new(answers);
        let applied = run_task_while("x", &model, &mut inj, b"", MAX_STEPS, &mut cancel);
        (applied.len(), inj.recorded().len())
    };
    assert_eq!(run(vec![true]), (0, 0));
    assert_eq!(run(vec![false, true]), (0, 0));
    assert_eq!(run(vec![false, false, true]), (1, 1));
    assert_eq!(run(vec![]), (3, 2));
    assert_eq!(run(vec![false]), (3, 2));
    let mut inj = FakeInjector::new();
    let cancel = AtomicBool::new(false);
    assert!(run_task("  ", &model, &mut inj, b"", MAX_STEPS, &cancel).is_empty());
}

#[test]
fn production_model_is_llm_not_done() {
    let m = production_model(&LlmConfig::default());
    assert_eq!(m.kind(), "llm");
    assert_ne!(m.kind(), "done");
    assert_eq!(DoneModel.kind(), "done");
}

#[test]
fn action_prompt_teaches_human_grade_input() {
    let p = LlmActionModel::action_prompt("open notes", 0);
    assert!(p.contains("button\":\"right\"") || p.contains("\"right\""));
    assert!(p.contains("paste"));
    assert!(p.contains("modifiers"));
    assert!(p.contains("down"));
    assert!(p.contains("display"));
    assert!(p.contains("[displays]"));
    assert!(p.contains("image/png"));
    assert!(p.contains("\"file\"") || p.contains("notes.txt"));
}

#[test]
fn actions_from_model_json_click_type_done() {
    let v = j(r#"{"actions": [
        {"action":"click","x":0.2,"y":0.3},
        {"action":"type","text":"hi"},
        {"action":"done"}
    ]}"#);
    assert_eq!(
        actions_from_model_json(&v),
        vec![Action::click(r(0.2), r(0.3)), Action::Type { text: "hi".into() }, Action::Done]
    );
    let human = j(r#"{"actions": [
        {"action":"click","x":0.1,"y":0.1,"button":"right"},
        {"action":"key","key":"c","modifiers":["Meta"]},
        {"action":"paste","text":"hi"}
    ]}"#);
    let acts = actions_from_model_json(&human);
    assert!(matches!(acts[0], Action::Click { button: MouseButton::Right, .. }));
    match &acts[1] {
        Action::Key { key, modifiers, .. } => {
            assert_eq!(key, "c");
            assert!(modifiers.iter().any(|m| m == "Meta"));
        }
        other => panic!("{other:?}"),
    }
    assert_eq!(acts[2], Action::Paste { text: "hi".into() });
    let disp = j(r#"{"action":"display","id":"3:"}"#);
    assert_eq!(actions_from_model_json(&disp), vec![Action::Display { id: "3:".into() }]);
    let file = j(r#"{"action":"file","name":"notes.txt","text":"hello"}"#);
    match actions_from_model_json(&file).as_slice() {
        [Action::File { name, data }] => {
            assert_eq!(name, "notes.txt");
            assert_eq!(data, b"hello");
        }
        other => panic!("{other:?}"),
    }
}

#[test]
fn async_loop_grabs_a_new_frame_each_step() {
    let mut inj = FakeInjector::new();
    let model = StubClickTypeModel::default();
    let mut grabs = 0u32;
    let mut run = TaskRun::new("t", MAX_STEPS);
    loop {
        match run.next(false) {
            Todo::Plan { step } => {
                grabs += 1;
                let plan = model.plan(run.task(), step, b"\xff\xd8snap");
                run.plan(plan);
            }
            Todo::Inject { action, .. } => inj.apply(&action),
            Todo::Pause { .. } => {}
            Todo::Finished => break,
        }
    }
    assert_eq!(run.applied().last(), Some(&Action::Done));
    assert!(grabs >= 3, "need a snapshot per step");
}

#[test]
fn a_blank_task_is_not_run() {
    let mut run = TaskRun::new("   ", MAX_STEPS);
    assert!(matches!(run.next(false), Todo::Finished));
    let mut waits = TaskRun::new("wait", 1);
    assert!(matches!(waits.next(false), Todo::Plan { step: 0 }));
    waits.plan(vec![Action::Wait { ms: 40 }]);
    assert!(matches!(waits.next(false), Todo::Pause { ms: 40 }));
    assert!(matches!(waits.next(true), Todo::Finished));
}

#[test]
fn grab_jpeg_prefers_type_snap_over_fragment() {
    let mut hub = Hub::new();
    hub.publish_unit(TYPE_FRAG, Bytes::from_static(b"moof-not-jpeg"), 1920, 1080, 0);
    hub.publish_unit(TYPE_SNAP, Bytes::from_static(b"\xff\xd8SNAP"), 0, 0, 0);
    match grab_jpeg(&hub) {
        Snapshot::Ready(jpeg) => assert_eq!(jpeg, b"\xff\xd8SNAP"),
        other => panic!("{other:?}"),
    }
}

#[test]
fn llm_model_posts_jpeg_and_parses_actions() {
    let cfg = LlmConfig {
        base_url: "http://127.0.0.1:1".into(),
        api_key: "k".into(),
        model: "m".into(),
        ..LlmConfig::default()
    };
    let model = LlmActionModel::from_cfg(&cfg);
    let req = model.plan_vision("click the button", 0, b"\xff\xd8\xff\xd9").unwrap();
    assert_eq!(req.url, "http://127.0.0.1:1/chat/completions");
    let body = j(&req.body);
    let content = body.items_at("messages").unwrap()[0].items_at("content").unwrap();
    assert!(content.iter().any(|c| c.text_at("type") == Some("image_url")));
    let acts = vision_reply(Some(
        r#"{"choices":[{"message":{"content":"{\"actions\":[{\"action\":\"click\",\"x\":0.2,\"y\":0.3},{\"action\":\"done\"}]}"}}]}"#,
    ));
    assert_eq!(acts, vec![Action::click(r(0.2), r(0.3)), Action::Done]);
}

#[test]
fn a_reply_that_cannot_be_read_ends_the_task() {
    assert_eq!(vision_reply(None), vec![Action::Done]);
    assert_eq!(vision_reply(Some("not json")), vec![Action::Done]);
    assert!(extract_json_object("no object").is_none());
    let v = extract_json_object("sure: ```json\n{\"action\":\"done\"}\n``` ok").unwrap();
    assert_eq!(v.text_at("action"), Some("done"));
}
