use waywarp::agent::{AgentError, AgentMode, SeatCursor};
use waywarp::render::OutputInfo;

fn output(name: &str, width: i32, height: i32) -> OutputInfo {
    OutputInfo { name: name.to_string(), x: 0, y: 0, width, height, scale: 1 }
}

#[test]
fn active_outputs_filters_and_falls_back() {
    let outputs = vec![Some(output("a", 0, 1080)), None, Some(output("b", 2560, 1440)), Some(output("c", 800, 600))];
    let active = AgentMode::active_outputs(&outputs).unwrap();
    assert_eq!(active.len(), 2);
    assert_eq!(active[0].0, 2);
    assert_eq!(active[0].1.name, "b");
    assert_eq!(active[1].0, 3);

    let none_sized = vec![None, Some(output("x", 0, 0))];
    let active = AgentMode::active_outputs(&none_sized).unwrap();
    assert_eq!(active.len(), 1);
    assert_eq!(active[0].0, 0);
    assert_eq!(active[0].1.name, "default");
    assert_eq!((active[0].1.width, active[0].1.height, active[0].1.scale), (1920, 1080, 1));

    assert_eq!(AgentMode::active_outputs(&Vec::new()).unwrap_err(), AgentError::NoOutputs);
}

#[test]
fn hints_for_one_and_several_outputs() {
    let single = AgentMode::hints_for_outputs(&vec![output("a", 1920, 1080)], "abc");
    assert_eq!(single.len(), 9);
    assert_eq!(single[0].label, "aa");

    let multi = AgentMode::hints_for_outputs(&vec![output("a", 1920, 1080), output("b", 1280, 720)], "abc");
    assert_eq!(multi.len(), 18);
    assert_eq!(multi[0].label, "aaa");
    assert_eq!(multi[9].label, "baa");
    assert_eq!(multi[9].screen, 1);
    assert_eq!((multi[9].x, multi[9].y), (213, 120));
}

#[test]
fn selection_returns_listed_hint() {
    let outputs = vec![output("a", 1920, 1080), output("b", 1280, 720)];
    let hints = AgentMode::hints_for_outputs(&outputs, "abc");
    for h in &hints {
        let t = AgentMode::resolve_selection(&h.label, &outputs, "abc").unwrap();
        assert_eq!((t.x, t.y, t.screen), (h.x, h.y, h.screen));
        assert_eq!(t.output, Some(h.screen as usize));
        assert_eq!(t.info.name, outputs[h.screen as usize].name);
    }
    assert_eq!(AgentMode::resolve_selection("zz", &outputs, "abc").unwrap_err(), AgentError::LabelMismatch);
    assert_eq!(AgentMode::resolve_selection("aa", &outputs, "abc").unwrap_err(), AgentError::LabelMismatch);
}

#[test]
fn moves_are_clamped_to_the_first_screen() {
    let outputs = vec![output("a", 800, 600)];
    let t = AgentMode::resolve_move_to(900, -4, &outputs);
    assert_eq!((t.x, t.y, t.output), (800, 0, Some(0)));
    let t = AgentMode::resolve_move_to(10, 20, &Vec::new());
    assert_eq!((t.x, t.y, t.output), (10, 20, None));
    assert_eq!(t.info.width, 1920);
    let t = AgentMode::resolve_move_by(-30, 700, 20, 10, &outputs);
    assert_eq!((t.x, t.y), (0, 600));
    let t = AgentMode::resolve_move_by(5, 5, 100, 100, &outputs);
    assert_eq!((t.x, t.y), (105, 105));
}

#[test]
fn cursor_from_hyprctl_output() {
    assert_eq!(AgentMode::cursor_from_hyprctl("1024, 768\n"), Some((1024, 768)));
    assert_eq!(AgentMode::cursor_from_hyprctl(" -5 ,+7 "), Some((-5, 7)));
    assert_eq!(AgentMode::cursor_from_hyprctl("1,2,3"), None);
    assert_eq!(AgentMode::cursor_from_hyprctl("12"), None);
    assert_eq!(AgentMode::cursor_from_hyprctl("a,b"), None);
    assert_eq!(AgentMode::cursor_from_hyprctl("2147483648,0"), None);
    assert_eq!(AgentMode::cursor_from_hyprctl("-2147483648,0"), Some((i32::MIN, 0)));
}

#[test]
fn cursor_position_prefers_hyprctl_then_seats() {
    let seats = vec![
        SeatCursor { x: Some(1), y: None },
        SeatCursor { x: Some(4294967396), y: Some(-3) },
    ];
    assert_eq!(AgentMode::cursor_from_seats(&seats), Some((100, -3)));
    assert_eq!(AgentMode::cursor_position(Some("5,6"), Some(&seats)), (5, 6));
    assert_eq!(AgentMode::cursor_position(Some("garbage"), Some(&seats)), (100, -3));
    assert_eq!(AgentMode::cursor_position(None, None), (960, 540));
    assert_eq!(AgentMode::cursor_position(None, Some(&vec![SeatCursor { x: None, y: Some(1) }])), (960, 540));
}

#[test]
fn cursor_position_from_swaymsg_json() {
    let seats = r#"[{"name":"seat0","cursor":{"x":1.5,"y":2}},{"name":"seat1","cursor":{"y":7,"x":5}}]"#;
    assert_eq!(AgentMode::cursor_position_from_texts(None, Some(seats)), (5, 7));
    assert_eq!(AgentMode::cursor_position_from_texts(Some("10, 20\n"), Some(seats)), (10, 20));
    assert_eq!(AgentMode::cursor_position_from_texts(Some("garbage"), Some(seats)), (5, 7));
    assert_eq!(AgentMode::cursor_position_from_texts(None, Some("{\"cursor\":{\"x\":1,\"y\":2}}")), (960, 540));
    assert_eq!(AgentMode::cursor_position_from_texts(None, Some("not json")), (960, 540));
    assert_eq!(AgentMode::cursor_position_from_texts(None, Some("[{\"nocursor\":1}]")), (960, 540));
    assert_eq!(AgentMode::cursor_position_from_texts(None, None), (960, 540));
}

#[test]
fn seat_cursors_read_integer_members() {
    let json = waywarp::json::parse_json(r#"[{"cursor":{"x":3,"y":-4}},{"other":true},5]"#).unwrap();
    let seats = AgentMode::seat_cursors(&json).unwrap();
    assert_eq!(seats.len(), 3);
    assert_eq!((seats[0].x, seats[0].y), (Some(3), Some(-4)));
    assert_eq!((seats[1].x, seats[1].y), (None, None));
    assert_eq!((seats[2].x, seats[2].y), (None, None));
    let obj = waywarp::json::parse_json("{\"a\":1}").unwrap();
    assert!(AgentMode::seat_cursors(&obj).is_none());
}
