use npm_utils::progress::{
    begin_line, finish_line, item_line, move_cursor, resolve_rendering, template, warn_msg,
    Cursor, Draw, ProgressMode, Rendering, Stage, Task, FORCED_WIDTH,
};

fn lines(draws: &[Draw]) -> Vec<String> {
    draws
        .iter()
        .filter_map(|d| match d {
            Draw::Line(text) => Some(text.clone()),
            _ => None,
        })
        .collect()
}

#[test]
fn mode_resolution_matrix() {
    assert_eq!(
        resolve_rendering(ProgressMode::Auto, false, true),
        Rendering::Live { forced: false }
    );
    assert_eq!(resolve_rendering(ProgressMode::Auto, false, false), Rendering::Plain);
    assert_eq!(
        resolve_rendering(ProgressMode::On, false, true),
        Rendering::Live { forced: true }
    );
    assert_eq!(
        resolve_rendering(ProgressMode::On, false, false),
        Rendering::Live { forced: true }
    );
    assert_eq!(resolve_rendering(ProgressMode::Verbose, false, true), Rendering::Verbose);
    assert_eq!(resolve_rendering(ProgressMode::Verbose, false, false), Rendering::Verbose);
    assert_eq!(resolve_rendering(ProgressMode::Off, false, true), Rendering::Off);
    assert_eq!(resolve_rendering(ProgressMode::Auto, true, true), Rendering::Off);
    assert_eq!(resolve_rendering(ProgressMode::Auto, true, false), Rendering::Off);
    assert_eq!(resolve_rendering(ProgressMode::On, true, false), Rendering::Off);
}

#[test]
fn begin_item_finish_lines_format() {
    assert_eq!(
        begin_line("npm", "querying npm advisories"),
        "[npm] querying npm advisories ..."
    );
    assert_eq!(
        item_line("install", 3, Some(12), "debug@4.4.0"),
        "[install] (3/12) debug@4.4.0"
    );
    assert_eq!(
        item_line("resolve", 37, None, "lodash@4.17.21"),
        "[resolve] (37) lodash@4.17.21"
    );
    let secs: f64 = 1.23;
    assert_eq!(
        finish_line(
            "npm",
            "querying npm advisories",
            "169 advisories",
            &format!("{secs:.1}")
        ),
        "[npm] querying npm advisories ... 169 advisories (1.2s)"
    );
}

#[test]
fn plain_task_prints_begin_and_finish_pair_only() {
    let mut out: Vec<Draw> = Vec::new();
    let (mut task, draws) = Task::begin(Rendering::Plain, "install", "installing packages");
    out.extend(draws);
    out.extend(task.set_total(2));
    out.extend(task.inc("a@1.0.0"));
    out.extend(task.inc("b@2.0.0"));
    out.extend(task.detail("transient state"));
    assert_eq!(task.count(), 2);
    out.extend(task.finish("2 packages", "0.1"));

    let lines = lines(&out);
    assert_eq!(lines.len(), out.len());
    assert_eq!(lines.len(), 2, "{lines:?}");
    assert_eq!(lines[0], "[install] installing packages ...");
    assert!(
        lines[1].starts_with("[install] installing packages ... 2 packages ("),
        "{lines:?}"
    );
}

#[test]
fn verbose_task_prints_one_line_per_item() {
    let mut out: Vec<Draw> = Vec::new();
    let (mut task, draws) = Task::begin(Rendering::Verbose, "install", "installing packages");
    out.extend(draws);
    out.extend(task.set_total(2));
    out.extend(task.inc("a@1.0.0"));
    out.extend(task.detail("transient state"));
    out.extend(task.inc("b@2.0.0"));
    out.extend(task.finish("2 packages", "0.1"));

    let lines = lines(&out);
    assert_eq!(lines.len(), 4, "{lines:?}");
    assert_eq!(lines[0], "[install] installing packages ...");
    assert_eq!(lines[1], "[install] (1/2) a@1.0.0");
    assert_eq!(lines[2], "[install] (2/2) b@2.0.0");
    assert!(lines[3].starts_with("[install] installing packages ... 2 packages ("));
}

#[test]
fn warn_serializes_with_text_lines() {
    let mut out: Vec<Draw> = Vec::new();
    let (mut task, draws) = Task::begin(Rendering::Plain, "resolve", "resolving dependency tree");
    out.extend(draws);
    out.push(warn_msg(Rendering::Plain, "something failed; retrying"));
    out.extend(task.finish("1 package", "0.1"));
    assert_eq!(lines(&out)[1], "npm-utils: something failed; retrying");
}

#[test]
fn warnings_are_drawn_in_every_rendering() {
    assert_eq!(
        warn_msg(Rendering::Off, "x"),
        Draw::Line("npm-utils: x".to_string())
    );
    assert_eq!(
        warn_msg(Rendering::Live { forced: false }, "x"),
        Draw::Above("npm-utils: x".to_string())
    );
}

#[test]
fn off_tasks_are_inert_including_drop_without_finish() {
    let (mut task, draws) = Task::begin(Rendering::Off, "resolve", "resolving");
    assert!(draws.is_empty());
    assert!(task.inc("a@1.0.0").is_empty());
    assert!(task.set_total(3).is_empty());
    assert!(task.detail("x").is_empty());
    assert_eq!(task.count(), 1);
    assert!(task.finish("done", "0.1").is_empty());
    let (mut unfinished, _) = Task::begin(Rendering::Off, "npm", "querying npm advisories");
    assert!(unfinished.abandon().is_empty());
}

#[test]
fn live_task_renders_staged_headers() {
    let live = Rendering::Live { forced: false };
    let (mut task, draws) = Task::begin(live, "install", "installing packages");
    assert_eq!(
        draws,
        [Draw::Block {
            template: "[install] {prefix}\n  {wide_msg}".to_string(),
            title: "installing packages".to_string()
        }]
    );
    assert_eq!(
        task.inc("a@1.0.0"),
        [
            Draw::Template("[install] ({pos}) {prefix}\n  {wide_msg}".to_string()),
            Draw::Position(1),
            Draw::Message("a@1.0.0".to_string())
        ]
    );
    assert_eq!(
        task.inc("b@1.0.0"),
        [Draw::Position(2), Draw::Message("b@1.0.0".to_string())]
    );
    assert_eq!(
        task.set_total(3),
        [
            Draw::Template("[install] ({pos}/{len}) {prefix}\n  {wide_msg}".to_string()),
            Draw::Length(3)
        ]
    );
    assert_eq!(
        task.inc("c@1.0.0"),
        [Draw::Position(3), Draw::Message("c@1.0.0".to_string())],
        "a task that knows its total does not fall back"
    );
    assert_eq!(
        task.detail("fetching b, c"),
        [Draw::Message("fetching b, c".to_string())]
    );
}

#[test]
fn live_finish_prints_permanent_line_and_clears_block() {
    let live = Rendering::Live { forced: true };
    let (mut task, _) = Task::begin(live, "install", "installing packages");
    assert_eq!(
        task.finish("3 packages", "0.5"),
        [
            Draw::Above("[install] installing packages ... 3 packages (0.5s)".to_string()),
            Draw::Clear
        ]
    );
    assert!(task.finish("again", "0.6").is_empty());
    assert!(task.abandon().is_empty());
}

#[test]
fn live_drop_backstop_clears_without_a_permanent_line() {
    let live = Rendering::Live { forced: false };
    let (mut task, _) = Task::begin(live, "resolve", "resolving dependency tree");
    task.inc("a@1.0.0");
    assert_eq!(task.abandon(), [Draw::Clear]);
    assert!(task.fail("failed", "0.1").is_empty());
}

#[test]
fn templates_and_cursor_moves() {
    assert_eq!(template("x", Stage::Bare), "[x] {prefix}\n  {wide_msg}");
    assert_eq!(move_cursor(Cursor::Up, 2), "\x1b[2A");
    assert_eq!(move_cursor(Cursor::Down, 10), "\x1b[10B");
    assert_eq!(move_cursor(Cursor::Right, 1), "\x1b[1C");
    assert_eq!(move_cursor(Cursor::Left, 3), "\x1b[3D");
    assert_eq!(move_cursor(Cursor::Up, 0), "");
    assert_eq!(FORCED_WIDTH, 80);
}
