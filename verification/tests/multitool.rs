use r_tools::controls::{
    level_word, mute_plan, owns_session, parse_volume_arg, run as apply_volume, session_pid,
    volume_sinks, workspace_dispatch, VolumeOp,
};
use r_tools::cycle::{get_active_links, link_args, next_sink_index, run as plan_cycle};
use r_tools::overlay::{
    run as ptt_run, set_mic_volume, set_volume_calls, volume_overlay, DrawOperation, LineSide,
    ProcessCall,
};
use r_tools::pipewire::{
    get_physical_sink_ids, get_physical_sink_names, PwInfo, PwNode, PwProps, VIRTUAL_SINK_TO_CYCLE,
};

fn s(v: &[&str]) -> Vec<String> {
    v.iter().map(|x| x.to_string()).collect()
}

fn node(id: u32, class: Option<&str>, name: Option<&str>, factory: Option<&str>) -> PwNode {
    PwNode {
        id,
        info: Some(PwInfo {
            props: Some(PwProps {
                media_class: class.map(|c| c.to_string()),
                node_name: name.map(|n| n.to_string()),
                factory_name: factory.map(|f| f.to_string()),
            }),
        }),
    }
}

fn sample_nodes() -> Vec<PwNode> {
    vec![
        node(40, Some("Audio/Sink"), Some("b_sink"), None),
        node(31, Some("Audio/Sink"), Some("a_sink"), Some("api.alsa.pcm.sink")),
        node(50, Some("Audio/Sink"), Some("X1"), None),
        node(51, Some("Audio/Sink"), Some("X2"), None),
        node(60, Some("Audio/Sink"), Some("null"), Some("support.null-audio-sink")),
        node(70, Some("Audio/Source"), Some("mic"), None),
        node(80, Some("Audio/Sink"), None, None),
        node(90, None, Some("c_sink"), None),
        PwNode { id: 91, info: None },
        PwNode { id: 92, info: Some(PwInfo { props: None }) },
    ]
}

fn call(c: &ProcessCall) -> (String, Vec<String>) {
    (c.program.clone(), c.args.clone())
}

#[test]
fn physical_sinks_leave_out_virtual_and_null_sinks() {
    assert_eq!(get_physical_sink_names(&sample_nodes()), s(&["a_sink", "b_sink"]));
    assert_eq!(get_physical_sink_ids(&sample_nodes()), vec![31, 40]);
    assert_eq!(get_physical_sink_names(&[]), Vec::<String>::new());
}

const LISTING: &str = "X1:monitor_FL\n  |-> b_sink:playback_FL\nX1:monitor_FR\n  |-> b_sink:playback_FR\n  |-> ghost:playback_FR\nother:monitor_FL\n  |-> a_sink:playback_FL\n";

#[test]
fn active_links_come_from_the_source_sections() {
    let targets = s(&["a_sink", "b_sink"]);
    assert_eq!(get_active_links(VIRTUAL_SINK_TO_CYCLE, LISTING, &targets), s(&["b_sink"]));
    assert_eq!(get_active_links("other", LISTING, &targets), s(&["a_sink"]));
    assert_eq!(get_active_links("X1", "", &targets), Vec::<String>::new());
}

#[test]
fn cycle_moves_to_the_sink_after_the_last_active_one() {
    let plan = plan_cycle(&sample_nodes(), LISTING).unwrap();
    assert_eq!(plan.sinks, s(&["a_sink", "b_sink"]));
    assert_eq!(plan.next, 0);
    assert_eq!(plan.unlink, s(&["b_sink"]));

    let on_a = "X1:monitor_FL\n  |-> a_sink:playback_FL\n";
    let plan = plan_cycle(&sample_nodes(), on_a).unwrap();
    assert_eq!(plan.next, 1);
    assert_eq!(plan.unlink, s(&["a_sink"]));

    let plan = plan_cycle(&sample_nodes(), "").unwrap();
    assert_eq!(plan.next, 0);
    assert!(plan.unlink.is_empty());

    let both = "X1:monitor_FL\n  |-> a_sink:playback_FL\n  |-> b_sink:playback_FL\n";
    let plan = plan_cycle(&sample_nodes(), both).unwrap();
    assert_eq!(plan.next, 0);
    assert_eq!(plan.unlink, s(&["b_sink"]));

    assert!(plan_cycle(&[], LISTING).is_none());
}

#[test]
fn next_sink_index_wraps_round() {
    let sinks = s(&["a", "b", "c"]);
    assert_eq!(next_sink_index(&sinks, &[]), 0);
    assert_eq!(next_sink_index(&sinks, &s(&["a"])), 1);
    assert_eq!(next_sink_index(&sinks, &s(&["c"])), 0);
    assert_eq!(next_sink_index(&sinks, &s(&["c", "a"])), 0);
    assert_eq!(next_sink_index(&sinks, &s(&["a", "b"])), 2);
}

#[test]
fn link_arguments_name_both_channels() {
    let (fl, fr) = link_args("X1", "a_sink", true);
    assert_eq!(fl, s(&["-d", "X1:monitor_FL", "a_sink:playback_FL"]));
    assert_eq!(fr, s(&["-d", "X1:monitor_FR", "a_sink:playback_FR"]));
    let (fl, fr) = link_args("X1", "b", false);
    assert_eq!(fl, s(&["X1:monitor_FL", "b:playback_FL"]));
    assert_eq!(fr, s(&["X1:monitor_FR", "b:playback_FR"]));
}

#[test]
fn mic_volume_call() {
    assert_eq!(
        call(&set_mic_volume("0.4")),
        ("wpctl".to_string(), s(&["set-volume", "@DEFAULT_AUDIO_SOURCE@", "0.4"]))
    );
}

#[test]
fn push_to_talk_toggle() {
    let on = ptt_run("1").unwrap();
    assert_eq!(call(&on.volume).1, s(&["set-volume", "@DEFAULT_AUDIO_SOURCE@", "0.4"]));
    assert!(on.overlay.layer.is_none() && on.overlay.timeout_ms.is_none());
    assert_eq!(on.overlay.operations.len(), 1);
    match &on.overlay.operations[0] {
        DrawOperation::Rectangle { x1, y1, x2, y2, fill_color, outline_width, outline_color } => {
            assert_eq!((*x1, *y1, *x2, *y2), (0, 0, 1920, 1080));
            assert_eq!(fill_color, "0x00000000");
            assert_eq!(*outline_width, 5);
            assert_eq!(outline_color, "0xFFFFFFFF");
        }
        _ => panic!("expected a rectangle"),
    }
    let off = ptt_run("0").unwrap();
    assert_eq!(call(&off.volume).1, s(&["set-volume", "@DEFAULT_AUDIO_SOURCE@", "0.0"]));
    match &off.overlay.operations[0] {
        DrawOperation::Rectangle { outline_color, .. } => assert_eq!(outline_color, "0x00000000"),
        _ => panic!("expected a rectangle"),
    }
    assert!(ptt_run("2").is_none());
    assert!(ptt_run("").is_none());
}

#[test]
fn volume_bars_and_guides() {
    let cmd = volume_overlay(540);
    assert_eq!(cmd.layer, Some(1));
    assert_eq!(cmd.timeout_ms, Some(1000));
    assert_eq!(cmd.operations.len(), 6);
    match &cmd.operations[0] {
        DrawOperation::Rectangle { x1, y1, x2, y2, .. } => assert_eq!((*x1, *y1, *x2, *y2), (0, 540, 10, 1080)),
        _ => panic!("expected a rectangle"),
    }
    match &cmd.operations[1] {
        DrawOperation::Rectangle { x1, y1, x2, y2, fill_color, .. } => {
            assert_eq!((*x1, *y1, *x2, *y2), (1910, 540, 1920, 1080));
            assert_eq!(fill_color, "0xFFFFFFFF");
        }
        _ => panic!("expected a rectangle"),
    }
    for (i, y) in [216, 432, 648, 864].iter().enumerate() {
        match &cmd.operations[i + 2] {
            DrawOperation::Line { x1, y1, x2, y2, width, side, color } => {
                assert_eq!((*x1, *y1, *x2, *y2, *width), (0, *y, 1920, *y, 1));
                assert!(matches!(side, LineSide::Center));
                assert_eq!(color, "0xFFFFFFFF");
            }
            _ => panic!("expected a line"),
        }
    }
}

#[test]
fn volume_calls_for_each_sink() {
    let calls = set_volume_calls(&[31, 40], "0.55");
    assert_eq!(call(&calls[0]), ("wpctl".to_string(), s(&["set-volume", "31", "0.55"])));
    assert_eq!(call(&calls[1]), ("wpctl".to_string(), s(&["set-volume", "40", "0.55"])));
    let (calls, overlay) = apply_volume(&[7], "1.00", 1080);
    assert_eq!(call(&calls[0]).1, s(&["set-volume", "7", "1.00"]));
    match &overlay.operations[0] {
        DrawOperation::Rectangle { y1, .. } => assert_eq!(*y1, 0),
        _ => panic!("expected a rectangle"),
    }
}

#[test]
fn volume_argument_forms() {
    let a = parse_volume_arg(" 5%+ ");
    assert_eq!((a.op, a.amount.as_str()), (VolumeOp::Raise, "5"));
    let a = parse_volume_arg("10%-");
    assert_eq!((a.op, a.amount.as_str()), (VolumeOp::Lower, "10"));
    let a = parse_volume_arg("40%");
    assert_eq!((a.op, a.amount.as_str()), (VolumeOp::Exact, "40"));
    let a = parse_volume_arg("0.5");
    assert_eq!((a.op, a.amount.as_str()), (VolumeOp::Exact, "0.5"));
    let a = parse_volume_arg("+");
    assert_eq!((a.op, a.amount.as_str()), (VolumeOp::Raise, ""));
    let a = parse_volume_arg("%%");
    assert_eq!((a.op, a.amount.as_str()), (VolumeOp::Exact, "%"));
}

#[test]
fn volume_needs_a_physical_sink() {
    assert_eq!(volume_sinks(&sample_nodes()), Ok(vec![31, 40]));
    assert_eq!(volume_sinks(&[node(1, Some("Audio/Sink"), Some("X1"), None)]), Err("No physical sinks found".to_string()));
}

#[test]
fn level_is_the_second_word() {
    assert_eq!(level_word("Volume: 0.40 [MUTED]\n"), Some("0.40".to_string()));
    assert_eq!(level_word("Volume: 0.40"), Some("0.40".to_string()));
    assert_eq!(level_word("Volume:"), None);
    assert_eq!(level_word(""), None);
}

#[test]
fn workspace_toggle() {
    let to = |t: &str, active: i32| workspace_dispatch(t, active).map(|c| call(&c));
    assert_eq!(to("3", 3), Some(("hyprctl".to_string(), s(&["dispatch", "workspace", "previous"]))));
    assert_eq!(to("3", 2), Some(("hyprctl".to_string(), s(&["dispatch", "workspace", "3"]))));
    assert_eq!(to("+3", 3), Some(("hyprctl".to_string(), s(&["dispatch", "workspace", "previous"]))));
    assert_eq!(to("-1", 4), Some(("hyprctl".to_string(), s(&["dispatch", "workspace", "-1"]))));
    assert_eq!(to("x", 1), None);
    assert_eq!(to("", 0), None);
}

#[test]
fn mute_signals_only_a_recorder() {
    assert_eq!(session_pid(" 1234\n"), Some(1234));
    assert_eq!(session_pid(""), None);
    assert!(owns_session("/usr/bin/r_multitool\0ptt\0"));
    assert!(!owns_session("bash\0"));
    let (pid, mute) = mute_plan("42\n", Some("r_multitool\0stt\0"));
    assert_eq!(pid, Some(42));
    assert_eq!(call(&mute), ("wpctl".to_string(), s(&["set-volume", "@DEFAULT_AUDIO_SOURCE@", "0.0"])));
    assert_eq!(mute_plan("42", Some("bash")).0, None);
    assert_eq!(mute_plan("42", None).0, None);
    assert_eq!(mute_plan("pid", Some("r_multitool")).0, None);
}
