use waywarp::config::{parse_hex_color, Config, Rgba};

/// The colour as the drawing code uses it: channels from 0.0 to 1.0.
fn channels(c: Rgba) -> [f64; 4] {
    [c.r as f64 / 255.0, c.g as f64 / 255.0, c.b as f64 / 255.0, c.a as f64 / 255.0]
}

fn hint_bg(cfg: &Config) -> [f64; 4] {
    channels(cfg.hint_bg)
}

fn hint_fg(cfg: &Config) -> [f64; 4] {
    channels(cfg.hint_fg)
}

/// The border radius as the drawing code reads it.
fn border_radius(cfg: &Config) -> f64 {
    match &cfg.hint_border_radius {
        Some(text) => text.parse::<f64>().unwrap().clamp(0.0, 100.0),
        None => 25.0,
    }
}

#[test]
fn test_parse_hex_color() {
    assert_eq!(parse_hex_color("#ffffff").map(channels), Some([1.0, 1.0, 1.0, 1.0]));
    assert_eq!(parse_hex_color("ffffff").map(channels), Some([1.0, 1.0, 1.0, 1.0]));

    let red_translucent = channels(parse_hex_color("#ff000080").unwrap());
    assert!((red_translucent[0] - 1.0).abs() < 1e-5);
    assert!((red_translucent[1] - 0.0).abs() < 1e-5);
    assert!((red_translucent[2] - 0.0).abs() < 1e-5);
    assert!((red_translucent[3] - 128.0 / 255.0).abs() < 1e-5);

    assert_eq!(parse_hex_color("invalid"), None);
}

#[test]
fn test_parse_ini_basic() {
    let ini = r#"
            # comment
            hint_bg = #11223344
            hint_fg = #556677
            hint_font = JetBrainsMono
            hint_size = 20
            hint_border_radius = 5.0
            hint_chars = abc
            refinement_passes = 3
            exit_on_select = false
            on_select_cmd = echo selected
            on_exit_cmd = echo exited
        "#;

    let cfg = Config::parse_ini(ini);
    assert!((hint_bg(&cfg)[0] - 17.0 / 255.0).abs() < 1e-5);
    assert!((hint_bg(&cfg)[3] - 68.0 / 255.0).abs() < 1e-5);
    assert_eq!(cfg.hint_font, "JetBrainsMono");
    assert_eq!(cfg.hint_size, 20);
    assert_eq!(border_radius(&cfg), 5.0);
    assert_eq!(cfg.hint_chars, "abc");
    assert_eq!(cfg.refinement_passes, 3);
    assert!(!cfg.exit_on_select);
    assert_eq!(cfg.on_select_cmd, "echo selected");
    assert_eq!(cfg.on_exit_cmd, "echo exited");
}

#[test]
fn test_parse_ini_compatibility() {
    let ini = r#"
            hint_bgcolor = #ff0000
            hint_fgcolor = #00ff00
            hint_radius = 12
        "#;

    let cfg = Config::parse_ini(ini);
    assert!((hint_bg(&cfg)[0] - 1.0).abs() < 1e-5);
    assert!((hint_fg(&cfg)[1] - 1.0).abs() < 1e-5);
    assert_eq!(border_radius(&cfg), 12.0);
}

#[test]
fn test_parse_ini_clamps() {
    let ini = r#"
            hint_size = 100
            hint_border_radius = 200
            refinement_passes = 10
        "#;

    let cfg = Config::parse_ini(ini);
    assert_eq!(cfg.hint_size, 64); // Clamped to 64
    assert_eq!(border_radius(&cfg), 100.0); // Clamped to 100.0
    assert_eq!(cfg.refinement_passes, 4); // Clamped to 4
}

#[test]
fn defaults_when_empty() {
    let cfg = Config::parse_ini("");
    let d = Config::default();
    assert_eq!(cfg.hint_font, "monospace");
    assert_eq!(cfg.hint_size, 18);
    assert_eq!(cfg.hint_chars, "asdfghjklqwertzxv");
    assert_eq!(cfg.refinement_passes, 2);
    assert!(cfg.exit_on_select);
    assert_eq!(cfg.on_select_cmd, "hyprctl dispatch movecursor {global_x} {global_y}");
    assert_eq!(cfg.on_exit_cmd, "");
    assert_eq!(cfg.hint_bg, Rgba { r: 255, g: 85, b: 85, a: 96 });
    assert_eq!(cfg.hint_fg, Rgba { r: 255, g: 255, b: 255, a: 255 });
    assert_eq!(cfg.hint_border_radius, None);
    assert_eq!(d.hint_font, cfg.hint_font);
    assert_eq!(d.hint_bg, cfg.hint_bg);
    assert_eq!(border_radius(&cfg), 25.0);
    assert_eq!(cfg.key_left, "h,Left");
    assert_eq!(cfg.key_click_left, "f,Return");
    assert_eq!(cfg.key_exit, "Escape");
}

#[test]
fn later_setting_wins_and_bad_values_keep_previous() {
    let ini = "hint_size=30\nhint_size=abc\nhint_size=+12\nhint_size=-5\nrefinement_passes=0\nexit_on_select=TRUE\nhint_border_radius=7\nhint_border_radius=wide\n";
    let cfg = Config::parse_ini(ini);
    assert_eq!(cfg.hint_size, 12);
    assert_eq!(cfg.refinement_passes, 1);
    assert!(cfg.exit_on_select);
    assert_eq!(cfg.hint_border_radius.as_deref(), Some("7"));
}

#[test]
fn lines_without_key_or_value() {
    let ini = "; semicolon comment\n=value\nhint_chars=\nhint_font\non_exit_cmd = a=b \r\nunknown_key = 1\n";
    let cfg = Config::parse_ini(ini);
    assert_eq!(cfg.hint_chars, "asdfghjklqwertzxv");
    assert_eq!(cfg.hint_font, "");
    assert_eq!(cfg.on_exit_cmd, "a=b");
}

#[test]
fn size_overflow_and_lower_clamp() {
    let cfg = Config::parse_ini("hint_size=4294967296\n");
    assert_eq!(cfg.hint_size, 18);
    let cfg = Config::parse_ini("hint_size=4294967295\n");
    assert_eq!(cfg.hint_size, 64);
    let cfg = Config::parse_ini("hint_size=3");
    assert_eq!(cfg.hint_size, 8);
}

#[test]
fn float_radius_texts() {
    for (text, ok) in [("1e3", true), ("-.5", true), ("5.", true), ("inf", true), ("NaN", true), ("+infinity", true), (".", false), ("e5", false), ("1e", false), ("1.2.3", false), ("0x10", false)] {
        let cfg = Config::parse_ini(&format!("hint_radius={}", text));
        assert_eq!(cfg.hint_border_radius.is_some(), ok, "{}", text);
        if ok {
            assert!(text.parse::<f64>().is_ok());
        } else {
            assert!(text.parse::<f64>().is_err());
        }
    }
}

#[test]
fn hex_colour_forms() {
    assert_eq!(parse_hex_color(" AbCdEf "), Some(Rgba { r: 0xab, g: 0xcd, b: 0xef, a: 255 }));
    assert_eq!(parse_hex_color("#11223344"), Some(Rgba { r: 0x11, g: 0x22, b: 0x33, a: 0x44 }));
    assert_eq!(parse_hex_color("+f0000"), None);
    assert_eq!(parse_hex_color("#+f0000"), None);
    assert_eq!(parse_hex_color("#12345"), None);
    assert_eq!(parse_hex_color("#1234567"), None);
    assert_eq!(parse_hex_color("ffffé"), None);
    assert_eq!(parse_hex_color("fff€"), None);
    assert_eq!(parse_hex_color("#f€ff"), None);
}

#[test]
fn bad_colours_keep_the_previous_one() {
    let cfg = Config::parse_ini("hint_bg = ffffé\nhint_fg=#00000000\nhint_fgcolor = fff€");
    assert_eq!(cfg.hint_bg, Rgba { r: 255, g: 85, b: 85, a: 96 });
    assert_eq!(cfg.hint_fg, Rgba { r: 0, g: 0, b: 0, a: 0 });
}

#[test]
fn key_binding_lines_set_their_field() {
    let cfg = Config::parse_ini("key_left=h,Left\nkey_exit = q , Escape\nkey_scroll_down=\nkey_nothing=x");
    assert_eq!(cfg.key_left, "h,Left");
    assert_eq!(cfg.key_exit, "q , Escape");
    assert_eq!(cfg.key_scroll_down, "");
    assert_eq!(cfg.key_right, "l,Right");
}

#[test]
fn last_assignment_wins_and_inert_lines_change_nothing() {
    let base = "hint_font = A\nhint_size = 30";
    let a = Config::parse_ini(base);
    let b = Config::parse_ini(&format!("{}\nhint_font = B", base));
    assert_eq!(b.hint_font, "B");
    assert_eq!(b.hint_size, a.hint_size);
    let c = Config::parse_ini(&format!("; note\n\nfoo = 1\n=2\n{}\n# end", base));
    assert_eq!(c.hint_font, a.hint_font);
    assert_eq!(c.hint_size, a.hint_size);
}

#[test]
fn callback_command_fills_placeholders() {
    let cmd = Config::callback_command(
        "move {x} {y} {global_x},{global_y} on {screen_w}x{screen_h} #{monitor_id} at {scale_x}/{scale_y} {x}",
        150,
        -20,
        1920,
        0,
        2560,
        1440,
        1,
        "0.0586",
        "-0.0139",
    );
    assert_eq!(
        cmd.as_deref(),
        Some("move 150 -20 2070,-20 on 2560x1440 #1 at 0.0586/-0.0139 150")
    );
    assert_eq!(
        Config::callback_command("echo {monitor_id}", 0, 0, 0, 0, 3, 4, 2, "a", "b").as_deref(),
        Some("echo 2")
    );
    assert_eq!(Config::callback_command("  \t ", 1, 2, 0, 0, 3, 4, 0, "a", "b"), None);
    assert_eq!(Config::callback_command("", 1, 2, 0, 0, 3, 4, 0, "a", "b"), None);
    assert_eq!(
        Config::callback_command("{x}{{y}}", i32::MIN, 0, 0, 0, 3, 4, 0, "a", "b").as_deref(),
        Some("-2147483648{0}")
    );
    assert_eq!(
        Config::callback_command("{global_x}", i32::MIN, 0, i32::MIN, 0, 3, 4, 0, "a", "b").as_deref(),
        Some("-4294967296")
    );
}

#[test]
fn unicode_whitespace_is_trimmed() {
    let cfg = Config::parse_ini("hint_font =\u{a0}Fira Code\u{3000}\u{2009}\nhint_size\u{85}= 20");
    assert_eq!(cfg.hint_font, "Fira Code");
    assert_eq!(cfg.hint_size, 20);
}

#[test]
fn default_file_reads_back_as_the_defaults() {
    let text = Config::default_text();
    assert!(text.starts_with("# waywarp config\nhint_bg=#ff555560\n"));
    assert!(text.ends_with("on_exit_cmd=\n"));
    let cfg = Config::parse_ini(&text);
    let d = Config::default();
    assert_eq!(cfg.hint_bg, d.hint_bg);
    assert_eq!(cfg.hint_fg, d.hint_fg);
    assert_eq!(cfg.hint_font, d.hint_font);
    assert_eq!(cfg.hint_size, d.hint_size);
    assert_eq!(cfg.hint_chars, d.hint_chars);
    assert_eq!(cfg.refinement_passes, d.refinement_passes);
    assert_eq!(cfg.exit_on_select, d.exit_on_select);
    assert_eq!(cfg.on_select_cmd, d.on_select_cmd);
    assert_eq!(cfg.on_exit_cmd, d.on_exit_cmd);
    assert_eq!(cfg.hint_border_radius.as_deref(), Some("25.0"));
    assert_eq!(border_radius(&cfg), 25.0);
}

#[test]
fn whitespace_agrees_with_std() {
    for u in 0u32..0x3100 {
        if let Some(c) = char::from_u32(u) {
            assert_eq!(waywarp::text::char_is_whitespace(c), c.is_whitespace(), "{:x}", u);
        }
    }
    for c in ['\u{feff}', '\u{180e}', '\u{fffd}', 'a'] {
        assert_eq!(waywarp::text::char_is_whitespace(c), c.is_whitespace());
    }
}
