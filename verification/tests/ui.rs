use bugglers::ui::elapsed_fits;
use bugglers::ui::gen_last_ui;
use bugglers::ui::gen_processing_ui;
use bugglers::ui::gen_tips;
use bugglers::ui::gen_ui;
use bugglers::ui::progress_fits;

fn expected_closing(head: String, ui_len: usize, ending: &str) -> String {
    let mut line = head;
    let padding = ui_len + 1 - line.len();
    line.push_str(&" ".repeat(padding));
    line.push_str("  ║\n╚");
    let bars = line.len() - 10;
    line.push_str(&"═".repeat(bars));
    format!("\r\x1b[1A{}{}", line, ending)
}

fn expected_frame(lines: &[String], ui_len: usize) -> String {
    let mut drawn = String::new();
    for line in lines {
        drawn.push_str(line);
        drawn.push_str(&" ".repeat(ui_len + 2 - line.len()));
        drawn.push_str("  ║");
    }
    drawn
}

fn expected_header(
    file_path: &str,
    width: usize,
    height: usize,
    threads: usize,
    warnings: (&str, &str),
    errors: (&str, &str),
) -> (String, usize) {
    let mut lines = vec![
        format!("\n║  Bugglers v1"),
        format!("\n║  Using {} threads", threads),
        format!("\n║  "),
        format!("\n║  Image Size : {}x{} pixels", width, height),
        format!("\n║  File used : {}", file_path),
    ];
    if warnings.0 != "" || warnings.1 != "" {
        lines.push(format!("\n║  "));
        lines.push(format!("\n║  Warning(s) :"));
        if warnings.0 != "" {
            lines.push(format!("\n║    {}", warnings.0));
        }
        if warnings.1 != "" {
            lines.push(format!("\n║    {}", warnings.1));
        }
    }
    if errors.0 != "" || errors.1 != "" {
        lines.push(format!("\n║  "));
        lines.push(format!("\n║  Error(s) :"));
        if errors.0 != "" {
            lines.push(format!("\n║    {}", errors.0));
        }
        if errors.1 != "" {
            lines.push(format!("\n║    {}", errors.1));
        }
    }
    lines.push(format!("\n║  "));
    let blank = format!("║  Processing pixel : {}/{}  ║", width * height, width * height);
    let mut widest = blank.len();
    for line in &lines {
        if line.len() > widest {
            widest = line.len();
        }
    }
    let ui_len = widest - 2;
    let drawn = format!(
        "\n\n╔{}╗{}\n╟{}╢\n\n",
        "═".repeat(ui_len),
        expected_frame(&lines, ui_len),
        "─".repeat(ui_len)
    );
    (drawn, ui_len)
}

fn expected_tips(tip_file: &str, tip_size: &str) -> String {
    if tip_file == "" && tip_size == "" {
        return String::new();
    }
    let mut lines = vec![format!("\n║  Tips : ")];
    if tip_file != "" {
        lines.push(format!("\n║    {}", tip_file));
    }
    if tip_size != "" {
        lines.push(format!("\n║    {}", tip_size));
    }
    lines.push(format!("\n║  "));
    let mut widest = 0;
    for line in &lines {
        if line.len() > widest {
            widest = line.len();
        }
    }
    let ui_len = widest - 2;
    format!(
        "╔{}╗{}\n╚{}╝\n\n",
        "═".repeat(ui_len),
        expected_frame(&lines, ui_len)
    , "═".repeat(ui_len))
}

#[test]
fn progress_line_is_drawn_over_the_line_above() {
    let drawn = gen_processing_ui(7, 100, 30);
    assert_eq!(
        drawn,
        "\r\x1b[1A║  Processing pixel : 7/100    ║\n╚══════════════════════════════╝"
    );
}

#[test]
fn progress_line_fills_the_box() {
    for ui_len in [36usize, 40, 64, 120] {
        for (current, total) in [(0usize, 1usize), (9, 10), (10, 10), (12_345, 230_400), (230_400, 230_400)] {
            let head = format!("║  Processing pixel : {}/{}", current, total);
            assert!(progress_fits(current, total, ui_len));
            assert_eq!(
                gen_processing_ui(current, total, ui_len),
                expected_closing(head, ui_len, "╝")
            );
        }
    }
}

#[test]
fn progress_line_that_fills_the_box_exactly() {
    let head = format!("║  Processing pixel : {}/{}", 5, 9);
    assert_eq!(head.len(), 27);
    assert!(progress_fits(5, 9, 26));
    assert!(!progress_fits(5, 9, 25));
    assert!(!progress_fits(5, 9, 0));
    let drawn = gen_processing_ui(5, 9, 26);
    assert_eq!(drawn, format!("\r\x1b[1A{}  ║\n╚{}╝", head, "═".repeat(26)));
}

#[test]
fn largest_counts_have_twenty_digits() {
    let head = format!("║  Processing pixel : {}/{}", usize::MAX, usize::MAX);
    assert!(progress_fits(usize::MAX, usize::MAX, 70));
    assert_eq!(
        gen_processing_ui(usize::MAX, usize::MAX, 70),
        expected_closing(head, 70, "╝")
    );
}

#[test]
fn elapsed_time_is_shown_in_minutes_and_seconds() {
    let drawn = gen_last_ui(125, 30);
    assert_eq!(
        drawn,
        "\r\x1b[1A║  Elapsed time:  2m 5s        ║\n╚══════════════════════════════╝\n\n\n"
    );
}

#[test]
fn elapsed_line_fills_the_box() {
    for ui_len in [30usize, 45, 80] {
        for seconds in [0u64, 59, 60, 61, 3599, 3600, 86_399, 1_000_000] {
            let head = format!("║  Elapsed time:  {}m {}s", seconds / 60, seconds % 60);
            assert!(elapsed_fits(seconds, ui_len));
            assert_eq!(
                gen_last_ui(seconds, ui_len),
                expected_closing(head, ui_len, "╝\n\n\n")
            );
        }
    }
}

#[test]
fn elapsed_line_that_is_too_long_does_not_fit() {
    assert!(elapsed_fits(0, 24));
    assert!(!elapsed_fits(0, 23));
    assert!(!elapsed_fits(600, 24));
    assert!(elapsed_fits(600, 25));
    assert!(elapsed_fits(u64::MAX, 43));
}

#[test]
fn no_tip_draws_nothing() {
    assert_eq!(gen_tips(String::new(), String::new()), "");
}

#[test]
fn tips_are_boxed_to_the_widest_line() {
    let tip_file = "try 'cargo run -- -f some_file' to choose a specific file";
    let tip_size = "try 'cargo run -- -s some_size' to choose a specific size, for example '120'";
    assert_eq!(
        gen_tips(tip_file.to_string(), tip_size.to_string()),
        expected_tips(tip_file, tip_size)
    );
    assert_eq!(gen_tips(tip_file.to_string(), String::new()), expected_tips(tip_file, ""));
    assert_eq!(gen_tips(String::new(), tip_size.to_string()), expected_tips("", tip_size));
}

#[test]
fn short_tip_is_boxed_to_the_title() {
    let drawn = gen_tips("a".to_string(), String::new());
    assert_eq!(
        drawn,
        "╔═══════════╗\n║  Tips :   ║\n║    a      ║\n║           ║\n╚═══════════╝\n\n"
    );
}

#[test]
fn tips_are_measured_in_bytes() {
    let tip = "écoute ♪ 音";
    assert_eq!(gen_tips(tip.to_string(), String::new()), expected_tips(tip, ""));
    assert_eq!(gen_tips(String::new(), tip.to_string()), expected_tips("", tip));
}

#[test]
fn header_of_a_default_run() {
    let warning_file = "Default audio sample 'miaou.wav' used";
    let warning_size = "Default 480x480 size value used";
    let (drawn, ui_len) = gen_ui(
        "samples/miaou.wav".to_string(),
        480,
        480,
        8,
        warning_file.to_string(),
        warning_size.to_string(),
        String::new(),
        String::new(),
    );
    let expected = expected_header(
        "samples/miaou.wav",
        480,
        480,
        8,
        (warning_file, warning_size),
        ("", ""),
    );
    assert_eq!(ui_len, expected.1);
    assert_eq!(drawn, expected.0);
    assert_eq!(ui_len, 43);
}

#[test]
fn header_without_notes() {
    let (drawn, ui_len) = gen_ui(
        "a.wav".to_string(),
        2,
        2,
        1,
        String::new(),
        String::new(),
        String::new(),
        String::new(),
    );
    assert_eq!(ui_len, 30);
    assert_eq!(
        drawn,
        "\n\n╔══════════════════════════════╗\
         \n║  Bugglers v1                 ║\
         \n║  Using 1 threads             ║\
         \n║                              ║\
         \n║  Image Size : 2x2 pixels     ║\
         \n║  File used : a.wav           ║\
         \n║                              ║\
         \n╟──────────────────────────────╢\n\n"
    );
}

#[test]
fn header_with_every_note() {
    let cases = [
        ("w file", "w size", "e file", "e size"),
        ("w file", "", "", "e size"),
        ("", "w size", "e file", ""),
        ("", "", "Wrong argument: --loud", "Wrong size value, generic 480x480 used"),
        ("a very long warning about the file that makes the box wider than anything else", "", "", ""),
    ];
    for (warning_file, warning_size, err_file, err_size) in cases {
        let (drawn, ui_len) = gen_ui(
            "samples/été.wav".to_string(),
            120,
            120,
            16,
            warning_file.to_string(),
            warning_size.to_string(),
            err_file.to_string(),
            err_size.to_string(),
        );
        let expected = expected_header(
            "samples/été.wav",
            120,
            120,
            16,
            (warning_file, warning_size),
            (err_file, err_size),
        );
        assert_eq!(ui_len, expected.1);
        assert_eq!(drawn, expected.0);
    }
}

#[test]
fn header_leaves_room_for_the_progress_line() {
    for (width, height) in [(1usize, 1usize), (3, 7), (480, 480), (100_000, 100_000)] {
        let (_, ui_len) = gen_ui(
            "x".to_string(),
            width,
            height,
            4,
            String::new(),
            String::new(),
            String::new(),
            String::new(),
        );
        let total = width * height;
        for current in [0, total / 2, total] {
            assert!(progress_fits(current, total, ui_len));
        }
    }
}
