use waywarp::hint::{Hint, HintGrid};
use waywarp::scanner::{ScannerElement, ScannerOutput};

#[test]
fn test_get_unique_chars() {
    let chars = HintGrid::get_unique_chars("aabcc123!d");
    assert_eq!(chars, vec!['a', 'b', 'c', 'd']);

    let empty = HintGrid::get_unique_chars("123!");
    assert!(!empty.is_empty()); // Falls back to default chars
}

#[test]
fn test_generate_first_pass_single_monitor() {
    let hint_chars = "abc";
    let grid = HintGrid::generate_first_pass(1920, 1080, hint_chars, 0, false, None);

    // 3^2 = 9 hints
    assert_eq!(grid.hints.len(), 9);
    assert_eq!(grid.hints[0].label, "aa");
    assert_eq!(grid.hints[1].label, "ab");
    assert_eq!(grid.hints[8].label, "cc");
    assert_eq!(grid.hints[0].screen, 0);

    // Bounds check coordinates
    for hint in &grid.hints {
        assert!(hint.x >= 0 && hint.x <= 1920);
        assert!(hint.y >= 0 && hint.y <= 1080);
    }
}

#[test]
fn test_generate_first_pass_multi_monitor() {
    let hint_chars = "abc";
    let grid = HintGrid::generate_first_pass(1920, 1080, hint_chars, 1, true, Some('s'));

    // 3^2 = 9 hints
    assert_eq!(grid.hints.len(), 9);
    // Multi-monitor tags should have length of 3 starting with monitor char
    assert_eq!(grid.hints[0].label, "saa");
    assert_eq!(grid.hints[1].label, "sab");
    assert_eq!(grid.hints[8].label, "scc");
    assert_eq!(grid.hints[0].screen, 1);
}

#[test]
fn test_generate_refinement() {
    let hint_chars = "ab";
    let grid = HintGrid::generate_refinement(100, 200, 300, 400, hint_chars, 0);

    // 2^2 = 4 hints
    assert_eq!(grid.hints.len(), 4);
    assert_eq!(grid.hints[0].label, "aa");
    assert_eq!(grid.hints[3].label, "bb");

    // First cell midpoint should be (100 + 100/2, 200 + 100/2) => (150, 250)
    assert_eq!(grid.hints[0].x, 150);
    assert_eq!(grid.hints[0].y, 250);
}

#[test]
fn test_generate_labels_prefix_free() {
    let chars = vec!['a', 'b', 'c']; // base 3
    let labels = HintGrid::generate_labels(5, &chars);
    // With 5 elements and base 3, minimal fixed length L = ceil(log_3(5)) = 2.
    assert_eq!(labels.len(), 5);
    for label in &labels {
        assert_eq!(label.len(), 2);
    }
    // Prefix-free verification: no label is a prefix of another
    for i in 0..labels.len() {
        for j in 0..labels.len() {
            if i != j {
                assert!(!labels[i].starts_with(&labels[j]));
            }
        }
    }
}

#[test]
fn generate_labels_spells_numbers_in_base() {
    let chars = vec!['a', 'b', 'c'];
    let labels = HintGrid::generate_labels(5, &chars);
    assert_eq!(labels, vec!["aa", "ab", "ac", "ba", "bb"]);
    let one = HintGrid::generate_labels(3, &chars);
    assert_eq!(one, vec!["a", "b", "c"]);
    let four = HintGrid::generate_labels(4, &chars);
    assert_eq!(four, vec!["aa", "ab", "ac", "ba"]);
}

#[test]
fn generate_labels_edge_cases() {
    assert!(HintGrid::generate_labels(0, &['a', 'b']).is_empty());
    assert!(HintGrid::generate_labels(3, &[]).is_empty());
    assert!(HintGrid::generate_labels(2, &['a']).is_empty());
    assert_eq!(HintGrid::generate_labels(1, &['a']), vec!["a"]);
    let many = HintGrid::generate_labels(27, &['x', 'y', 'z']);
    assert_eq!(many.len(), 27);
    assert!(many.iter().all(|l| l.chars().count() == 3));
    assert_eq!(many[26], "zzz");
    let more = HintGrid::generate_labels(28, &['x', 'y', 'z']);
    assert_eq!(more[27], "yxxx");
}

#[test]
fn unique_chars_keep_first_occurrence_order() {
    assert_eq!(HintGrid::get_unique_chars("dcbadcba"), vec!['d', 'c', 'b', 'a']);
    assert_eq!(HintGrid::get_unique_chars("a b\tc"), vec!['a', 'b', 'c']);
    assert_eq!(HintGrid::get_unique_chars("äöä"), vec!['ä', 'ö']);
    let fallback: String = HintGrid::get_unique_chars("").into_iter().collect();
    assert_eq!(fallback, "asdfghjklqwertzxv");
}

#[test]
fn first_pass_cell_centres() {
    let grid = HintGrid::generate_first_pass(300, 90, "ab", 2, true, None);
    assert_eq!(grid.hints.len(), 4);
    // cells of 150 x 45, monitor character chars[2 % 2]
    assert_eq!(grid.hints[0].label, "aaa");
    assert_eq!((grid.hints[0].x, grid.hints[0].y), (75, 22));
    assert_eq!((grid.hints[1].x, grid.hints[1].y), (75, 67));
    assert_eq!((grid.hints[2].x, grid.hints[2].y), (225, 22));
    assert_eq!(grid.hints[3].label, "abb");
    assert!(grid.hints.iter().all(|h| h.width == 40 && h.height == 30 && h.screen == 2));
    assert_eq!((grid.width, grid.height, grid.screen), (300, 90, 2));
    assert!(!grid.is_element_based);
}

#[test]
fn first_pass_negative_size_rounds_toward_zero() {
    let grid = HintGrid::generate_first_pass(-7, 5, "ab", 0, false, None);
    // cell width -7 / 2 = -3, centre offset -3 / 2 = -1
    assert_eq!(grid.hints[0].x, -1);
    assert_eq!(grid.hints[2].x, -4);
}

#[test]
fn refinement_hints_stay_in_region() {
    let grid = HintGrid::generate_refinement(-50, 10, 50, 110, "abcd", 3);
    assert_eq!(grid.hints.len(), 16);
    for h in &grid.hints {
        assert!(h.x >= -50 && h.x <= 50);
        assert!(h.y >= 10 && h.y <= 110);
        assert_eq!(h.screen, 3);
    }
    assert_eq!((grid.width, grid.height), (100, 100));
}

#[test]
fn new_grid_is_empty() {
    let grid = HintGrid::new(10, 20, 1);
    assert!(grid.hints.is_empty());
    assert_eq!((grid.width, grid.height, grid.screen, grid.is_element_based), (10, 20, 1, false));
}

#[test]
fn hint_duplicate_copies() {
    let h = Hint { label: "ab".to_string(), x: 1, y: 2, width: 3, height: 4, screen: 5 };
    let d = h.duplicate();
    assert_eq!(d.label, "ab");
    assert_eq!((d.x, d.y, d.width, d.height, d.screen), (1, 2, 3, 4, 5));
}

fn element(x: i32, y: i32, monitor: u32) -> ScannerElement {
    ScannerElement {
        id: 0,
        element_type: "button".to_string(),
        text: "Login".to_string(),
        monitor_index: monitor,
        center: [x, y],
        bbox: [x - 10, y - 10, 20, 20],
    }
}

#[test]
fn scan_grid_labels_elements() {
    let output = ScannerOutput {
        screen_width: 1920,
        screen_height: 1080,
        elements: vec![element(100, 200, 0), element(300, 400, 1), element(5, 6, 0), element(7, 8, 0)],
    };
    let grid = output.hint_grid("abc");
    assert!(grid.is_element_based);
    assert_eq!((grid.width, grid.height, grid.screen), (1920, 1080, 0));
    let labels: Vec<&str> = grid.hints.iter().map(|h| h.label.as_str()).collect();
    assert_eq!(labels, vec!["aa", "ab", "ac", "ba"]);
    assert_eq!((grid.hints[1].x, grid.hints[1].y, grid.hints[1].screen), (300, 400, 1));
    assert!(grid.hints.iter().all(|h| h.width == 40 && h.height == 30));
}

#[test]
fn unique_chars_of_unique_chars_are_the_same() {
    for s in ["aabcc123!d", "", "123", "ÄäÄb"] {
        let once = HintGrid::get_unique_chars(s);
        let text: String = once.iter().collect();
        assert_eq!(HintGrid::get_unique_chars(&text), once);
    }
}
