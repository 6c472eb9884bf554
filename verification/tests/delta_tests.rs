use nippo::delta::{diff_lines, diff_text, render, DiffLine};

#[test]
fn diff_marks_changed_middle_line() {
    let script = diff_lines("a\nb\nc", "a\nx\nc");
    let mut removed: Vec<String> = Vec::new();
    let mut added: Vec<String> = Vec::new();
    for e in &script {
        match e {
            DiffLine::Removed(s) => removed.push(s.clone()),
            DiffLine::Added(s) => added.push(s.clone()),
            DiffLine::Unchanged(_) => {},
        }
    }
    assert_eq!(removed, vec!["b".to_string()]);
    assert_eq!(added, vec!["x".to_string()]);
}

#[test]
fn rendered_diff_excludes_unchanged_lines() {
    // "a" and "c" are matched and must not appear in the output
    assert_eq!(diff_text("a\nb\nc", "a\nx\nc"), "-b\n+x\n");
}

#[test]
fn identical_bodies_render_an_empty_diff() {
    assert_eq!(diff_text("same\ntext", "same\ntext"), "");
}

#[test]
fn render_prefixes_removed_and_added_lines() {
    let script = vec![
        DiffLine::Removed("old line".to_string()),
        DiffLine::Unchanged("kept".to_string()),
        DiffLine::Added("new line".to_string()),
    ];
    assert_eq!(render(&script), "-old line\n+new line\n");
}

#[test]
fn diff_of_whole_replacement() {
    assert_eq!(diff_text("only old", "only new"), "-only old\n+only new\n");
}

#[test]
fn trailing_newlines_do_not_leak_into_the_diff() {
    // both bodies end in a newline; the trailing empty line is matched
    assert_eq!(diff_text("a\n", "b\n"), "-a\n+b\n");
}

#[test]
fn diff_from_empty_body_adds_every_line() {
    assert_eq!(diff_text("", "a\nb"), "+a\n+b\n");
}
