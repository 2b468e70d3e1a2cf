use lineman::clean::{clean_lines, clean_text};
use lineman::line::normalize_line;
use lineman::text::{join_lines, split_lines};

#[test]
fn normalize_strips_trailing_spaces_and_keeps_newline() {
    assert_eq!(normalize_line("def f():   \n", true), ("def f():\n".to_string(), true));
    assert_eq!(normalize_line("def f():   \n", false), ("def f():\n".to_string(), true));
}

#[test]
fn normalize_strips_mixed_spaces_and_tabs() {
    assert_eq!(normalize_line("x = 1 \t \t\n", false), ("x = 1\n".to_string(), true));
}

#[test]
fn normalize_keeps_inner_whitespace() {
    assert_eq!(normalize_line("  a \t b\n", true), ("  a \t b\n".to_string(), false));
}

#[test]
fn normalize_whitespace_only_line() {
    assert_eq!(normalize_line(" \t \n", true), ("\n".to_string(), true));
    assert_eq!(normalize_line(" \t ", false), ("".to_string(), true));
    assert_eq!(normalize_line(" \t ", true), ("\n".to_string(), true));
}

#[test]
fn normalize_empty_line() {
    assert_eq!(normalize_line("", false), ("".to_string(), false));
    assert_eq!(normalize_line("", true), ("\n".to_string(), true));
}

#[test]
fn normalize_adds_newline_at_end_of_file() {
    assert_eq!(normalize_line("main()", true), ("main()\n".to_string(), true));
}

#[test]
fn normalize_leaves_unterminated_line_without_flag() {
    assert_eq!(normalize_line("main()", false), ("main()".to_string(), false));
    assert_eq!(normalize_line("main()  ", false), ("main()".to_string(), true));
}

#[test]
fn normalize_same_length_change_is_reported() {
    // one trailing space replaced by the newline: same length, different text
    assert_eq!(normalize_line("a ", true), ("a\n".to_string(), true));
}

#[test]
fn normalize_keeps_carriage_return() {
    assert_eq!(normalize_line("a\r\n", true), ("a\r\n".to_string(), false));
}

#[test]
fn normalize_is_idempotent() {
    for line in ["def f():   \n", "main()", "  \t", "", "a\tb \n"] {
        for flag in [true, false] {
            let (once, _) = normalize_line(line, flag);
            let (twice, changed) = normalize_line(&once, flag);
            assert_eq!(twice, once);
            assert!(!changed);
        }
    }
}

#[test]
fn scenario_blank_tail_dropped_with_flag() {
    let input = ["def f():   \n", "    pass\t\n", "\n", "\n"];
    assert_eq!(clean_lines(&input, true), ["def f():\n", "    pass\n"]);
}

#[test]
fn scenario_blank_tail_kept_without_flag() {
    let input = ["def f():   \n", "    pass\t\n", "\n", "\n"];
    assert_eq!(clean_lines(&input, false), ["def f():\n", "    pass\n", "\n", "\n"]);
}

#[test]
fn scenario_last_line_gains_newline() {
    assert_eq!(clean_lines(&["main()"], true), ["main()\n"]);
}

#[test]
fn scenario_last_line_unchanged_without_flag() {
    assert_eq!(clean_lines(&["main()"], false), ["main()"]);
}

#[test]
fn blank_tail_with_whitespace_dropped() {
    let input = ["x\n", "  \n", "\t\n", "   "];
    assert_eq!(clean_lines(&input, true), ["x\n"]);
    assert_eq!(clean_lines(&input, false), ["x\n", "\n", "\n", ""]);
}

#[test]
fn all_blank_lines_leave_nothing() {
    assert_eq!(clean_lines(&["\n", "  \n"], true), Vec::<String>::new());
    let empty: [&str; 0] = [];
    assert_eq!(clean_lines(&empty, true), Vec::<String>::new());
}

#[test]
fn blank_lines_in_the_middle_are_kept() {
    let input = ["a\n", "\n", "  \n", "b"];
    assert_eq!(clean_lines(&input, true), ["a\n", "\n", "\n", "b\n"]);
}

#[test]
fn split_keeps_newlines_with_their_lines() {
    assert_eq!(split_lines("a\nb \n\nc"), ["a\n", "b \n", "\n", "c"]);
    assert_eq!(split_lines("a\n"), ["a\n"]);
    assert_eq!(split_lines(""), Vec::<String>::new());
    assert_eq!(split_lines("\n\n"), ["\n", "\n"]);
}

#[test]
fn split_matches_std() {
    for text in ["one\ntwo\n", "x", "\n", "é\tà \n  ü", ""] {
        let expected: Vec<String> = text.split_inclusive('\n').map(|s| s.to_string()).collect();
        assert_eq!(split_lines(text), expected);
    }
}

#[test]
fn join_writes_lines_back_to_back() {
    let lines = vec!["a\n".to_string(), "b".to_string()];
    assert_eq!(join_lines(&lines), "a\nb");
    assert_eq!(join_lines(&Vec::new()), "");
}

#[test]
fn clean_text_rewrites_dirty_file() {
    let text = "def f():   \n    pass\t\n\n\n";
    assert_eq!(clean_text(text, true), Some("def f():\n    pass\n".to_string()));
    assert_eq!(clean_text(text, false), Some("def f():\n    pass\n\n\n".to_string()));
}

#[test]
fn clean_text_leaves_clean_file_alone() {
    assert_eq!(clean_text("def f():\n    pass\n", true), None);
    assert_eq!(clean_text("main()", false), None);
    assert_eq!(clean_text("", true), None);
    assert_eq!(clean_text("a\n\n\n", false), None);
}

#[test]
fn clean_text_end_of_file() {
    assert_eq!(clean_text("main()", true), Some("main()\n".to_string()));
    assert_eq!(clean_text("a\n\n\n", true), Some("a\n".to_string()));
    assert_eq!(clean_text("\n \n", true), Some("".to_string()));
}

#[test]
fn clean_text_twice_changes_nothing() {
    for text in ["a  \nb\t\n\n", "x", " \n", "q\n  \n\t"] {
        for flag in [true, false] {
            let once = clean_text(text, flag).unwrap_or_else(|| text.to_string());
            assert_eq!(clean_text(&once, flag), None);
        }
    }
}
