use waywarp::hint::HintGrid;
use waywarp::input::InputHandler;
use waywarp::pointer::{MouseButton, ScrollDirection, VirtualPointer};
use waywarp::render::{
    keysym_names, known_keysyms, resolve_keysyms_with, Global, HintInput, HintKey, HintSession, HintStep,
    InteractionMode, NormalKeyBindings, NormalKeyState, OutputEvent, OutputInfo,
};

fn output(width: i32, height: i32) -> OutputInfo {
    OutputInfo { name: "o".to_string(), x: 0, y: 0, width, height, scale: 1 }
}

#[test]
fn output_events_build_descriptions() {
    let mut info: Option<OutputInfo> = None;
    OutputInfo::apply_event(&mut info, OutputEvent::Scale { factor: 2 });
    assert!(info.is_none());
    OutputInfo::apply_event(&mut info, OutputEvent::Mode { width: 2560, height: 1440 });
    OutputInfo::apply_event(&mut info, OutputEvent::Geometry { x: 10, y: 20 });
    OutputInfo::apply_event(&mut info, OutputEvent::Scale { factor: 2 });
    OutputInfo::apply_event(&mut info, OutputEvent::Name { name: "DP-1".to_string() });
    OutputInfo::apply_event(&mut info, OutputEvent::Other);
    let i = info.unwrap();
    assert_eq!((i.x, i.y, i.width, i.height, i.scale), (10, 20, 2560, 1440, 2));
    assert_eq!(i.name, "DP-1");

    let mut other: Option<OutputInfo> = None;
    OutputInfo::apply_event(&mut other, OutputEvent::Geometry { x: 1, y: 2 });
    let o = other.unwrap();
    assert_eq!((o.x, o.y, o.width, o.height, o.scale), (1, 2, 0, 0, 1));
    assert_eq!(o.name, "");
}

#[test]
fn globals_by_interface() {
    assert_eq!(Global::for_interface("wl_output"), Some((Global::Output, 4)));
    assert_eq!(Global::for_interface("zwlr_virtual_pointer_manager_v1"), Some((Global::VirtualPointerManager, 2)));
    assert_eq!(Global::for_interface("wl_shm"), Some((Global::Shm, 1)));
    assert_eq!(Global::for_interface("xdg_wm_base"), None);
}

#[test]
fn key_binding_names() {
    assert_eq!(keysym_names(" h , Left,,"), vec!["h".to_string(), "Left".to_string()]);
    assert!(keysym_names("").is_empty());
    assert_eq!(known_keysyms(&vec![0x68, 0, 0xff51]), vec![0x68, 0xff51]);
}

#[test]
fn session_narrows_resets_and_warps() {
    let outputs = vec![output(1920, 1080)];
    let grid = HintGrid::generate_first_pass(1920, 1080, "abc", 0, false, None);
    let mut s = HintSession::new(grid);
    assert!(matches!(s.step("", false, false, 1, true, "abc", &outputs), HintStep::Idle));
    assert!(matches!(s.step("a", false, false, 1, true, "abc", &outputs), HintStep::Narrow));
    assert_eq!(s.current_prefix, "a");
    assert!(matches!(s.step("a", false, false, 1, true, "abc", &outputs), HintStep::Idle));
    assert!(matches!(s.step("x", false, false, 1, true, "abc", &outputs), HintStep::Reset));
    assert_eq!(s.current_prefix, "");
    assert!(s.exit_callback_due());
    match s.step("bc", false, false, 1, true, "abc", &outputs) {
        HintStep::Warp { hint: h, stop } => {
            assert_eq!(h.label, "bc");
            assert_eq!((h.x, h.y), (960, 900));
            assert!(stop);
        }
        _ => panic!("expected a warp"),
    }
    assert!(!s.exit_callback_due());
    assert!(matches!(s.step("b", false, true, 1, true, "abc", &outputs), HintStep::Cancel));
    match s.step("c", true, false, 1, true, "abc", &outputs) {
        HintStep::Confirm(Some(h)) => assert_eq!(h.label, "ca"),
        _ => panic!("expected a confirmation"),
    }
    assert!(matches!(s.step("q", true, false, 1, true, "abc", &outputs), HintStep::Confirm(None)));
}

#[test]
fn warp_without_exit_on_select_keeps_the_session_open() {
    let outputs = vec![output(1920, 1080)];
    let grid = HintGrid::generate_first_pass(1920, 1080, "abc", 0, false, None);
    let mut s = HintSession::new(grid);
    match s.step("bc", false, false, 1, false, "abc", &outputs) {
        HintStep::Warp { hint, stop } => {
            assert_eq!(hint.label, "bc");
            assert!(!stop);
        }
        _ => panic!("expected a warp"),
    }
    assert_eq!(s.current_prefix, "");
    assert!(!s.exit_callback_due());
    // Cancelling without any warp leaves the exit callback due.
    let grid = HintGrid::generate_first_pass(1920, 1080, "abc", 0, false, None);
    let mut t = HintSession::new(grid);
    assert!(matches!(t.step("a", false, true, 1, false, "abc", &outputs), HintStep::Cancel));
    assert!(t.exit_callback_due());
    // A forced confirmation that matches a hint warps.
    assert!(matches!(t.step("a", true, false, 1, false, "abc", &outputs), HintStep::Confirm(Some(_))));
    assert!(!t.exit_callback_due());
}

#[test]
fn session_refines_around_the_match() {
    let outputs = vec![output(1920, 1080)];
    let grid = HintGrid::generate_first_pass(1920, 1080, "abc", 0, false, None);
    let mut s = HintSession::new(grid);
    assert!(!s.step_would_overflow("aa", false, false, 2, "abc", &outputs));
    assert!(matches!(s.step("aa", false, false, 2, true, "abc", &outputs), HintStep::Refine));
    assert_eq!(s.refinement_level, 2);
    assert_eq!(s.current_prefix, "");
    // cell of 640 x 360 around (320, 180)
    assert_eq!((s.grid.width, s.grid.height), (640, 360));
    assert_eq!(s.grid.hints.len(), 9);
    assert_eq!((s.grid.hints[0].x, s.grid.hints[0].y), (106, 60));
    match s.step("ab", false, false, 2, true, "abc", &outputs) {
        HintStep::Warp { hint: h, stop } => {
            assert_eq!((h.x, h.y), (106, 180));
            assert!(stop);
        }
        _ => panic!("expected a warp"),
    }
}

#[test]
fn refinement_overflow_is_detected() {
    let outputs = vec![output(i32::MAX, 100)];
    let mut grid = HintGrid::new(0, 0, 0);
    grid.hints.push(waywarp::hint::Hint { label: "aa".to_string(), x: i32::MAX - 1, y: 0, width: 40, height: 30, screen: 0 });
    let s = HintSession::new(grid);
    assert!(s.step_would_overflow("aa", false, false, 2, "a", &outputs));
    assert!(!s.step_would_overflow("aa", false, false, 1, "a", &outputs));
}

#[test]
fn overlay_shows_matching_hints_of_its_screen() {
    let outputs = vec![output(1920, 1080), output(1280, 720)];
    let given = HintGrid::new(0, 0, 0);
    let grid = HintGrid::initial_grid(&given, &outputs, "abc");
    assert_eq!(grid.hints.len(), 18);
    assert_eq!(grid.overlay_hints(InteractionMode::Hint, 1, "").unwrap().len(), 9);
    assert_eq!(grid.overlay_hints(InteractionMode::Hint, 1, "ba").unwrap().len(), 3);
    assert!(grid.overlay_hints(InteractionMode::Hint, 1, "aa").is_none());
    assert!(grid.overlay_hints(InteractionMode::Normal, 0, "").is_none());
    assert_eq!(grid.overlay_hints(InteractionMode::Hint, 5, "").unwrap().len(), 0);
}

#[test]
fn stub_devices_succeed() {
    let mut p = VirtualPointer::new().unwrap();
    assert!(p.move_to(1, 2).is_ok());
    assert!(p.click(MouseButton::Left).is_ok());
    assert!(p.scroll(ScrollDirection::Up, 3).is_ok());
    assert!(p.drag_to(0, 0, 5, 5).is_ok());
    let mut input = InputHandler::new().unwrap();
    assert!(input.start_listening(|_s: String| true).is_ok());
}

fn bindings() -> NormalKeyBindings {
    NormalKeyBindings {
        left: vec![0x68, 0xff51],
        right: vec![0x6c],
        up: vec![0x6b],
        down: vec![0x6a],
        shift: vec![0xffe1],
        ctrl: vec![0xffe3],
        click_left: vec![0x66, 0xff0d],
        click_right: vec![0x64],
        click_middle: vec![0x73],
        scroll_up: vec![0x75],
        scroll_down: vec![0x65],
        exit: vec![0xff1b, 0x71],
    }
}

#[test]
fn normal_keys_hold_and_release() {
    let b = bindings();
    let mut st = NormalKeyState::new();
    b.apply_key(&mut st, 0xff51, true);
    b.apply_key(&mut st, 0xffe1, true);
    assert!(st.left && st.shift && !st.right && !st.ctrl);
    b.apply_key(&mut st, 0xff51, false);
    assert!(!st.left && st.shift);
}

#[test]
fn normal_keys_trigger_actions_on_press_only() {
    let b = bindings();
    let mut st = NormalKeyState::new();
    b.apply_key(&mut st, 0x64, false);
    assert_eq!(st.click, None);
    b.apply_key(&mut st, 0x64, true);
    assert_eq!(st.click, Some(MouseButton::Right));
    b.apply_key(&mut st, 0xff0d, true);
    assert_eq!(st.click, Some(MouseButton::Left));
    b.apply_key(&mut st, 0x65, true);
    assert_eq!(st.scroll, Some(ScrollDirection::Down));
    assert!(!st.canceled);
    b.apply_key(&mut st, 0x71, false);
    assert!(!st.canceled);
    b.apply_key(&mut st, 0x71, true);
    assert!(st.canceled);
    // A key that no binding lists changes nothing.
    let before = (st.left, st.right, st.up, st.down, st.shift, st.ctrl, st.click, st.scroll);
    b.apply_key(&mut st, 0x7a, true);
    assert_eq!(before, (st.left, st.right, st.up, st.down, st.shift, st.ctrl, st.click, st.scroll));
}

#[test]
fn hint_keys_edit_the_prefix() {
    let mut inp = HintInput::new();
    inp.apply_key(HintKey::Text("a".to_string()), true);
    inp.apply_key(HintKey::Text("sd".to_string()), true);
    inp.apply_key(HintKey::Text("x".to_string()), false);
    assert_eq!(inp.text, "asd");
    inp.apply_key(HintKey::BackSpace, true);
    assert_eq!(inp.text, "as");
    inp.apply_key(HintKey::BackSpace, true);
    inp.apply_key(HintKey::BackSpace, true);
    inp.apply_key(HintKey::BackSpace, true);
    assert_eq!(inp.text, "");
    assert!(!inp.selection_made && !inp.canceled);
    inp.apply_key(HintKey::Return, true);
    assert!(inp.selection_made && !inp.canceled);
    inp.apply_key(HintKey::Escape, false);
    assert!(!inp.canceled);
    inp.apply_key(HintKey::Escape, true);
    assert!(inp.canceled);
}


#[test]
fn keysyms_resolve_through_the_lookup() {
    let table = |name: &str| match name {
        "h" => 0x68,
        "Left" => 0xff51,
        "Escape" => 0xff1b,
        _ => 0,
    };
    assert_eq!(resolve_keysyms_with(" h , Left", table), vec![0x68, 0xff51]);
    assert_eq!(resolve_keysyms_with("Escape,NoSuchKey,,h", table), vec![0xff1b, 0x68]);
    assert!(resolve_keysyms_with("", table).is_empty());
}

#[test]
fn third_pass_narrows_inside_the_second() {
    let outputs = vec![output(1920, 1080)];
    let grid = HintGrid::generate_first_pass(1920, 1080, "abc", 0, false, None);
    let mut s = HintSession::new(grid);
    assert!(matches!(s.step("aa", false, false, 3, true, "abc", &outputs), HintStep::Refine));
    assert_eq!((s.grid.width, s.grid.height), (640, 360));
    // "ab": column 0, row 1 of the 640 x 360 grid, cell 213 x 120 centred at (106, 180)
    assert!(matches!(s.step("ab", false, false, 3, true, "abc", &outputs), HintStep::Refine));
    assert_eq!(s.refinement_level, 3);
    assert_eq!((s.grid.width, s.grid.height), (212, 120));
    assert_eq!((s.grid.hints[0].x, s.grid.hints[0].y), (35, 140));
    match s.step("cc", false, false, 3, true, "abc", &outputs) {
        HintStep::Warp { hint, stop } => {
            assert_eq!((hint.x, hint.y), (175, 220));
            assert!(stop);
        }
        _ => panic!("expected a warp"),
    }
}
