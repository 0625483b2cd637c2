//! Progress on stderr: which rendering the flags select, what each task event draws, and the
//! lines and templates that are drawn.
//!
//! Status is chatter, not results: it can be silenced, and warnings cannot. Drawing is the
//! caller's; how long a task took comes in as text.

use crate::text::{number_text, Text};
use vstd::prelude::*;
use vstd::string::*;

verus! {

// ---------------------------------------------------------------------------
// Modes
// ---------------------------------------------------------------------------

/// The values of `--progress`.
#[derive(Clone, Copy, PartialEq, Eq, Debug)]
pub enum ProgressMode {
    /// Live on a terminal, plain line pairs when piped.
    Auto,
    /// Live even when piped.
    On,
    /// One line per event.
    Verbose,
    /// Nothing; warnings and errors still print.
    Off,
}

/// How progress is drawn.
#[derive(Clone, Copy, PartialEq, Eq, Debug)]
pub enum Rendering {
    Live { forced: bool },
    Plain,
    Verbose,
    Off,
}

/// What the flags select: quiet wins, then the mode, which asks for the terminal only when it is
/// automatic.
pub open spec fn selected_rendering(
    mode: ProgressMode,
    quiet: bool,
    stderr_is_tty: bool,
) -> Rendering {
    if quiet {
        Rendering::Off
    } else {
        match mode {
            ProgressMode::Auto => if stderr_is_tty {
                Rendering::Live { forced: false }
            } else {
                Rendering::Plain
            },
            ProgressMode::On => Rendering::Live { forced: true },
            ProgressMode::Verbose => Rendering::Verbose,
            ProgressMode::Off => Rendering::Off,
        }
    }
}

/// The rendering that the flags select.
pub fn resolve_rendering(mode: ProgressMode, quiet: bool, stderr_is_tty: bool) -> (r: Rendering)
    ensures
        r == selected_rendering(mode, quiet, stderr_is_tty),
{
    if quiet {
        return Rendering::Off;
    }
    match mode {
        ProgressMode::Auto => if stderr_is_tty {
            Rendering::Live { forced: false }
        } else {
            Rendering::Plain
        },
        ProgressMode::On => Rendering::Live { forced: true },
        ProgressMode::Verbose => Rendering::Verbose,
        ProgressMode::Off => Rendering::Off,
    }
}

// ---------------------------------------------------------------------------
// Lines
// ---------------------------------------------------------------------------

/// The line that begins a task.
pub open spec fn begin_text(name: Text, title: Text) -> Text {
    "["@ + name + "] "@ + title + " ..."@
}

/// The line for one item; the total stands in it once it is known.
pub open spec fn item_text(name: Text, pos: nat, total: Option<nat>, item: Text) -> Text {
    match total {
        Some(total) => "["@ + name + "] ("@ + crate::text::decimal(pos) + "/"@
            + crate::text::decimal(total) + ") "@ + item,
        None => "["@ + name + "] ("@ + crate::text::decimal(pos) + ") "@ + item,
    }
}

/// The line that ends a task; `secs` is how long it took, in seconds.
pub open spec fn finish_text(name: Text, title: Text, summary: Text, secs: Text) -> Text {
    "["@ + name + "] "@ + title + " ... "@ + summary + " ("@ + secs + "s)"@
}

/// A warning, which is marked in every rendering.
pub open spec fn warning_text(message: Text) -> Text {
    "npm-utils: "@ + message
}

/// The line that begins a task.
pub fn begin_line(name: &str, title: &str) -> (r: String)
    ensures
        r@ == begin_text(name@, title@),
{
    let mut out = "[".to_owned();
    out.append(name);
    out.append("] ");
    out.append(title);
    out.append(" ...");
    out
}

/// The value of an optional number.
pub open spec fn optional_nat(value: Option<u64>) -> Option<nat> {
    match value {
        Some(n) => Some(n as nat),
        None => None,
    }
}

/// The line for one item.
pub fn item_line(name: &str, pos: u64, total: Option<u64>, item: &str) -> (r: String)
    ensures
        r@ == item_text(name@, pos as nat, optional_nat(total), item@),
{
    let mut out = "[".to_owned();
    out.append(name);
    out.append("] (");
    out.append(number_text(pos).as_str());
    if let Some(total) = total {
        out.append("/");
        out.append(number_text(total).as_str());
    }
    out.append(") ");
    out.append(item);
    out
}

/// The line that ends a task.
pub fn finish_line(name: &str, title: &str, summary: &str, secs: &str) -> (r: String)
    ensures
        r@ == finish_text(name@, title@, summary@, secs@),
{
    let mut out = "[".to_owned();
    out.append(name);
    out.append("] ");
    out.append(title);
    out.append(" ... ");
    out.append(summary);
    out.append(" (");
    out.append(secs);
    out.append("s)");
    out
}

// ---------------------------------------------------------------------------
// Templates
// ---------------------------------------------------------------------------

/// How much a live header shows.
#[derive(Clone, Copy, PartialEq, Eq, Debug)]
pub enum Stage {
    /// No count.
    Bare,
    /// The count.
    Counted,
    /// The count and the total.
    Totaled,
}

/// The template of a live block: a header, and one line for the message.
pub open spec fn template_text(name: Text, stage: Stage) -> Text {
    "["@ + name + (match stage {
        Stage::Bare => "] {prefix}\n  {wide_msg}"@,
        Stage::Counted => "] ({pos}) {prefix}\n  {wide_msg}"@,
        Stage::Totaled => "] ({pos}/{len}) {prefix}\n  {wide_msg}"@,
    })
}

/// The template of a live block.
pub fn template(name: &str, stage: Stage) -> (r: String)
    ensures
        r@ == template_text(name@, stage),
{
    let mut out = "[".to_owned();
    out.append(name);
    match stage {
        Stage::Bare => {
            out.append("] {prefix}\n  {wide_msg}");
        },
        Stage::Counted => {
            out.append("] ({pos}) {prefix}\n  {wide_msg}");
        },
        Stage::Totaled => {
            out.append("] ({pos}/{len}) {prefix}\n  {wide_msg}");
        },
    }
    out
}

/// A direction that the cursor moves in.
#[derive(Clone, Copy, PartialEq, Eq, Debug)]
pub enum Cursor {
    Up,
    Down,
    Right,
    Left,
}

/// The width that is assumed where there is no terminal to measure.
pub const FORCED_WIDTH: u16 = 80;

/// What moves the cursor by `n`; nothing for no move.
pub open spec fn cursor_text(direction: Cursor, n: nat) -> Text {
    if n == 0 {
        Seq::empty()
    } else {
        "\x1b["@ + crate::text::decimal(n) + (match direction {
            Cursor::Up => "A"@,
            Cursor::Down => "B"@,
            Cursor::Right => "C"@,
            Cursor::Left => "D"@,
        })
    }
}

/// What moves the cursor by `n`.
pub fn move_cursor(direction: Cursor, n: usize) -> (r: String)
    ensures
        r@ == cursor_text(direction, n as nat),
{
    if n == 0 {
        let empty = String::new();
        assert(empty@ == Seq::<char>::empty());
        return empty;
    }
    let mut out = "\x1b[".to_owned();
    out.append(number_text(n as u64).as_str());
    match direction {
        Cursor::Up => {
            out.append("A");
        },
        Cursor::Down => {
            out.append("B");
        },
        Cursor::Right => {
            out.append("C");
        },
        Cursor::Left => {
            out.append("D");
        },
    }
    out
}

// ---------------------------------------------------------------------------
// Tasks
// ---------------------------------------------------------------------------

/// One thing to draw.
#[derive(Debug, Clone, PartialEq, Eq)]
pub enum Draw {
    /// Write a line.
    Line(String),
    /// Write a permanent line above the live blocks.
    Above(String),
    /// Add a live block with this template and title.
    Block { template: String, title: String },
    /// Give the block another template.
    Template(String),
    /// Give the block a total.
    Length(u64),
    /// Give the block a count.
    Position(u64),
    /// Give the block a message.
    Message(String),
    /// Clear the block.
    Clear,
}

/// The mathematical value of a [`Draw`].
pub enum DrawView {
    Line(Text),
    Above(Text),
    Block(Text, Text),
    Template(Text),
    Length(nat),
    Position(nat),
    Message(Text),
    Clear,
}

impl View for Draw {
    type V = DrawView;

    open spec fn view(&self) -> DrawView {
        match *self {
            Draw::Line(text) => DrawView::Line(text@),
            Draw::Above(text) => DrawView::Above(text@),
            Draw::Block { template, title } => DrawView::Block(template@, title@),
            Draw::Template(text) => DrawView::Template(text@),
            Draw::Length(n) => DrawView::Length(n as nat),
            Draw::Position(n) => DrawView::Position(n as nat),
            Draw::Message(text) => DrawView::Message(text@),
            Draw::Clear => DrawView::Clear,
        }
    }
}

/// What a list draws.
pub open spec fn draw_views(list: Seq<Draw>) -> Seq<DrawView> {
    Seq::new(list.len(), |i: int| list[i]@)
}

/// One named task.
#[derive(Debug, PartialEq, Eq)]
pub struct Task {
    rendering: Rendering,
    name: String,
    title: String,
    pos: u64,
    total: Option<u64>,
    stage: Stage,
    finished: bool,
}

/// The mathematical value of a [`Task`].
pub struct TaskView {
    pub rendering: Rendering,
    pub name: Text,
    pub title: Text,
    pub pos: nat,
    pub total: Option<nat>,
    pub stage: Stage,
    pub finished: bool,
}

impl View for Task {
    type V = TaskView;

    closed spec fn view(&self) -> TaskView {
        TaskView {
            rendering: self.rendering,
            name: self.name@,
            title: self.title@,
            pos: self.pos as nat,
            total: optional_nat(self.total),
            stage: self.stage,
            finished: self.finished,
        }
    }
}

/// What the beginning of a task draws.
pub open spec fn begin_draws(rendering: Rendering, name: Text, title: Text) -> Seq<DrawView> {
    match rendering {
        Rendering::Live { .. } => seq![
            DrawView::Block(template_text(name, Stage::Bare), title),
        ],
        Rendering::Off => Seq::empty(),
        _ => seq![DrawView::Line(begin_text(name, title))],
    }
}

/// What learning the total draws.
pub open spec fn total_draws(task: TaskView, total: nat) -> Seq<DrawView> {
    match task.rendering {
        Rendering::Live { .. } => seq![
            DrawView::Template(template_text(task.name, Stage::Totaled)),
            DrawView::Length(total),
        ],
        _ => Seq::empty(),
    }
}

/// What counting an item draws, when `task` has not counted it yet.
pub open spec fn item_draws(task: TaskView, item: Text) -> Seq<DrawView> {
    match task.rendering {
        Rendering::Live { .. } => (if task.stage == Stage::Bare {
            seq![DrawView::Template(template_text(task.name, Stage::Counted))]
        } else {
            Seq::empty()
        }) + seq![DrawView::Position(task.pos + 1), DrawView::Message(item)],
        Rendering::Verbose => seq![
            DrawView::Line(item_text(task.name, task.pos + 1, task.total, item)),
        ],
        _ => Seq::empty(),
    }
}

/// What a passing state draws.
pub open spec fn detail_draws(task: TaskView, text: Text) -> Seq<DrawView> {
    match task.rendering {
        Rendering::Live { .. } => seq![DrawView::Message(text)],
        _ => Seq::empty(),
    }
}

/// What the end of a task draws; a task ends once.
pub open spec fn finish_draws(task: TaskView, summary: Text, secs: Text) -> Seq<DrawView> {
    let line = finish_text(task.name, task.title, summary, secs);
    if task.finished {
        Seq::empty()
    } else {
        match task.rendering {
            Rendering::Live { .. } => seq![DrawView::Above(line), DrawView::Clear],
            Rendering::Off => Seq::empty(),
            _ => seq![DrawView::Line(line)],
        }
    }
}

/// What a task that is given up draws: its block goes, and no line stays.
pub open spec fn abandon_draws(task: TaskView) -> Seq<DrawView> {
    match task.rendering {
        Rendering::Live { .. } => if task.finished {
            Seq::empty()
        } else {
            seq![DrawView::Clear]
        },
        _ => Seq::empty(),
    }
}

/// What a warning draws. It is drawn in every rendering.
pub open spec fn warning_draw(rendering: Rendering, message: Text) -> DrawView {
    match rendering {
        Rendering::Live { .. } => DrawView::Above(warning_text(message)),
        _ => DrawView::Line(warning_text(message)),
    }
}

/// Draw a warning.
pub fn warn_msg(rendering: Rendering, message: &str) -> (r: Draw)
    ensures
        r@ == warning_draw(rendering, message@),
{
    let mut line = "npm-utils: ".to_owned();
    line.append(message);
    match rendering {
        Rendering::Live { .. } => Draw::Above(line),
        _ => Draw::Line(line),
    }
}

impl Task {
    /// Begin a task: `name` is its short tag, `title` says what it does.
    pub fn begin(rendering: Rendering, name: &str, title: &str) -> (r: (Task, Vec<Draw>))
        ensures
            r.0@ == (TaskView {
                rendering,
                name: name@,
                title: title@,
                pos: 0,
                total: None,
                stage: Stage::Bare,
                finished: false,
            }),
            draw_views(r.1@) == begin_draws(rendering, name@, title@),
    {
        let mut draws: Vec<Draw> = Vec::new();
        match rendering {
            Rendering::Live { .. } => {
                draws.push(
                    Draw::Block { template: template(name, Stage::Bare), title: title.to_owned() },
                );
            },
            Rendering::Off => {},
            _ => {
                draws.push(Draw::Line(begin_line(name, title)));
            },
        }
        assert(draw_views(draws@) == begin_draws(rendering, name@, title@));
        (
            Task {
                rendering,
                name: name.to_owned(),
                title: title.to_owned(),
                pos: 0,
                total: None,
                stage: Stage::Bare,
                finished: false,
            },
            draws,
        )
    }

    /// Learn how many items there are.
    pub fn set_total(&mut self, total: u64) -> (r: Vec<Draw>)
        ensures
            final(self)@ == (TaskView {
                total: Some(total as nat),
                stage: if old(self)@.rendering is Live {
                    Stage::Totaled
                } else {
                    old(self)@.stage
                },
                ..old(self)@
            }),
            draw_views(r@) == total_draws(old(self)@, total as nat),
    {
        let mut draws: Vec<Draw> = Vec::new();
        self.total = Some(total);
        match self.rendering {
            Rendering::Live { .. } => {
                self.stage = Stage::Totaled;
                draws.push(Draw::Template(template(self.name.as_str(), Stage::Totaled)));
                draws.push(Draw::Length(total));
            },
            _ => {},
        }
        assert(draw_views(draws@) == total_draws(old(self)@, total as nat));
        draws
    }

    /// Count one item. The first one of a live task shows the count, unless the total is shown
    /// already.
    pub fn inc(&mut self, item: &str) -> (r: Vec<Draw>)
        requires
            old(self)@.pos < u64::MAX,
        ensures
            final(self)@ == (TaskView {
                pos: old(self)@.pos + 1,
                stage: if old(self)@.rendering is Live && old(self)@.stage == Stage::Bare {
                    Stage::Counted
                } else {
                    old(self)@.stage
                },
                ..old(self)@
            }),
            draw_views(r@) == item_draws(old(self)@, item@),
    {
        let mut draws: Vec<Draw> = Vec::new();
        self.pos = self.pos + 1;
        match self.rendering {
            Rendering::Live { .. } => {
                if matches!(self.stage, Stage::Bare) {
                    self.stage = Stage::Counted;
                    draws.push(Draw::Template(template(self.name.as_str(), Stage::Counted)));
                }
                draws.push(Draw::Position(self.pos));
                draws.push(Draw::Message(item.to_owned()));
            },
            Rendering::Verbose => {
                draws.push(
                    Draw::Line(item_line(self.name.as_str(), self.pos, self.total, item)),
                );
            },
            _ => {},
        }
        assert(draw_views(draws@) == item_draws(old(self)@, item@));
        draws
    }

    /// Show a passing state; only a live task does.
    pub fn detail(&self, text: &str) -> (r: Vec<Draw>)
        ensures
            draw_views(r@) == detail_draws(self@, text@),
    {
        let mut draws: Vec<Draw> = Vec::new();
        match self.rendering {
            Rendering::Live { .. } => {
                draws.push(Draw::Message(text.to_owned()));
            },
            _ => {},
        }
        assert(draw_views(draws@) == detail_draws(self@, text@));
        draws
    }

    /// How many items were counted.
    pub fn count(&self) -> (r: u64)
        ensures
            r == self@.pos,
    {
        self.pos
    }

    /// End the task with a summary.
    pub fn finish(&mut self, summary: &str, secs: &str) -> (r: Vec<Draw>)
        ensures
            final(self)@ == (TaskView { finished: true, ..old(self)@ }),
            draw_views(r@) == finish_draws(old(self)@, summary@, secs@),
    {
        let mut draws: Vec<Draw> = Vec::new();
        if !self.finished {
            let line = finish_line(self.name.as_str(), self.title.as_str(), summary, secs);
            match self.rendering {
                Rendering::Live { .. } => {
                    draws.push(Draw::Above(line));
                    draws.push(Draw::Clear);
                },
                Rendering::Off => {},
                _ => {
                    draws.push(Draw::Line(line));
                },
            }
        }
        self.finished = true;
        assert(draw_views(draws@) == finish_draws(old(self)@, summary@, secs@));
        draws
    }

    /// End the task with a summary of its failure; it is drawn as any end is.
    pub fn fail(&mut self, summary: &str, secs: &str) -> (r: Vec<Draw>)
        ensures
            final(self)@ == (TaskView { finished: true, ..old(self)@ }),
            draw_views(r@) == finish_draws(old(self)@, summary@, secs@),
    {
        self.finish(summary, secs)
    }

    /// Give the task up without a line.
    pub fn abandon(&mut self) -> (r: Vec<Draw>)
        ensures
            final(self)@ == (TaskView { finished: true, ..old(self)@ }),
            draw_views(r@) == abandon_draws(old(self)@),
    {
        let mut draws: Vec<Draw> = Vec::new();
        if !self.finished {
            if let Rendering::Live { .. } = self.rendering {
                draws.push(Draw::Clear);
            }
        }
        self.finished = true;
        assert(draw_views(draws@) == abandon_draws(old(self)@));
        draws
    }
}

// ---------------------------------------------------------------------------
// Laws
// ---------------------------------------------------------------------------

/// Quiet means off, whatever else is asked for.
pub proof fn law_quiet_wins(mode: ProgressMode, stderr_is_tty: bool)
    ensures
        selected_rendering(mode, true, stderr_is_tty) == Rendering::Off,
{
}

/// A task that is off draws nothing from its beginning to its end.
pub proof fn law_off_tasks_are_silent(task: TaskView, total: nat, text: Text, secs: Text)
    requires
        task.rendering == Rendering::Off,
    ensures
        begin_draws(task.rendering, task.name, task.title).len() == 0,
        total_draws(task, total).len() == 0,
        item_draws(task, text).len() == 0,
        detail_draws(task, text).len() == 0,
        finish_draws(task, text, secs).len() == 0,
        abandon_draws(task).len() == 0,
{
}

/// A plain task draws its first and its last line, and nothing between.
pub proof fn law_plain_tasks_draw_a_pair(task: TaskView, total: nat, text: Text, secs: Text)
    requires
        task.rendering == Rendering::Plain,
        !task.finished,
    ensures
        begin_draws(task.rendering, task.name, task.title) == seq![
            DrawView::Line(begin_text(task.name, task.title)),
        ],
        total_draws(task, total).len() == 0,
        item_draws(task, text).len() == 0,
        detail_draws(task, text).len() == 0,
        finish_draws(task, text, secs) == seq![
            DrawView::Line(finish_text(task.name, task.title, text, secs)),
        ],
{
}

/// A task ends once: what has ended, or was given up, draws no second end.
pub proof fn law_tasks_end_once(task: TaskView, summary: Text, secs: Text)
    requires
        task.finished,
    ensures
        finish_draws(task, summary, secs).len() == 0,
        abandon_draws(task).len() == 0,
{
}

/// What is asked for is shown: always live, always by the line, never; and by itself live on a
/// terminal and plain elsewhere.
pub proof fn law_modes_select_their_rendering(stderr_is_tty: bool)
    ensures
        selected_rendering(ProgressMode::Auto, false, true) == (Rendering::Live { forced: false }),
        selected_rendering(ProgressMode::Auto, false, false) == Rendering::Plain,
        selected_rendering(ProgressMode::On, false, stderr_is_tty) == (Rendering::Live {
            forced: true,
        }),
        selected_rendering(ProgressMode::Verbose, false, stderr_is_tty) == Rendering::Verbose,
        selected_rendering(ProgressMode::Off, false, stderr_is_tty) == Rendering::Off,
{
}

/// A verbose task draws a line for its beginning, one for each item with its number and the total
/// where that is known, and one for its end.
pub proof fn law_verbose_tasks_draw_every_item(task: TaskView, item: Text, secs: Text)
    requires
        task.rendering == Rendering::Verbose,
        !task.finished,
    ensures
        begin_draws(task.rendering, task.name, task.title) == seq![
            DrawView::Line("["@ + task.name + "] "@ + task.title + " ..."@),
        ],
        item_draws(task, item) == seq![
            DrawView::Line(
                match task.total {
                    Some(total) => "["@ + task.name + "] ("@ + crate::text::decimal(task.pos + 1)
                        + "/"@ + crate::text::decimal(total) + ") "@ + item,
                    None => "["@ + task.name + "] ("@ + crate::text::decimal(task.pos + 1) + ") "@
                        + item,
                },
            ),
        ],
        finish_draws(task, item, secs) == seq![
            DrawView::Line(
                "["@ + task.name + "] "@ + task.title + " ... "@ + item + " ("@ + secs + "s)"@,
            ),
        ],
{
}

/// A live task draws one block: it is set up bare, shows the count from the first item on and the
/// total once that is known, moves with every item, and at the end leaves a line in its place.
pub proof fn law_live_tasks_draw_a_block(
    task: TaskView,
    forced: bool,
    total: nat,
    item: Text,
    secs: Text,
)
    requires
        task.rendering == (Rendering::Live { forced }),
        !task.finished,
    ensures
        begin_draws(task.rendering, task.name, task.title) == seq![
            DrawView::Block(template_text(task.name, Stage::Bare), task.title),
        ],
        total_draws(task, total) == seq![
            DrawView::Template(template_text(task.name, Stage::Totaled)),
            DrawView::Length(total),
        ],
        task.stage == Stage::Bare ==> item_draws(task, item) == seq![
            DrawView::Template(template_text(task.name, Stage::Counted)),
            DrawView::Position(task.pos + 1),
            DrawView::Message(item),
        ],
        task.stage != Stage::Bare ==> item_draws(task, item) == seq![
            DrawView::Position(task.pos + 1),
            DrawView::Message(item),
        ],
        detail_draws(task, item) == seq![DrawView::Message(item)],
        finish_draws(task, item, secs) == seq![
            DrawView::Above(finish_text(task.name, task.title, item, secs)),
            DrawView::Clear,
        ],
        abandon_draws(task) == seq![DrawView::Clear],
{
    assert(item_draws(task, item) =~= (if task.stage == Stage::Bare {
        seq![
            DrawView::Template(template_text(task.name, Stage::Counted)),
            DrawView::Position(task.pos + 1),
            DrawView::Message(item),
        ]
    } else {
        seq![DrawView::Position(task.pos + 1), DrawView::Message(item)]
    }));
}

/// Warnings are drawn in every rendering: above a live block, elsewhere as a line.
pub proof fn law_warnings_are_always_drawn(rendering: Rendering, message: Text)
    ensures
        rendering is Live ==> warning_draw(rendering, message) == DrawView::Above(
            "npm-utils: "@ + message,
        ),
        !(rendering is Live) ==> warning_draw(rendering, message) == DrawView::Line(
            "npm-utils: "@ + message,
        ),
{
}

/// The cursor moves in four directions, and not at all where there is nothing to move by.
pub proof fn law_the_cursor_moves(n: nat)
    requires
        n > 0,
    ensures
        cursor_text(Cursor::Up, n) == "\x1b["@ + crate::text::decimal(n) + "A"@,
        cursor_text(Cursor::Down, n) == "\x1b["@ + crate::text::decimal(n) + "B"@,
        cursor_text(Cursor::Right, n) == "\x1b["@ + crate::text::decimal(n) + "C"@,
        cursor_text(Cursor::Left, n) == "\x1b["@ + crate::text::decimal(n) + "D"@,
        cursor_text(Cursor::Up, 0).len() == 0,
        cursor_text(Cursor::Down, 0).len() == 0,
        cursor_text(Cursor::Right, 0).len() == 0,
        cursor_text(Cursor::Left, 0).len() == 0,
{
}

/// The value of a list of draws holds every one of them, in order.
pub proof fn law_lists_hold_every_draw(list: Seq<Draw>, i: int)
    requires
        0 <= i < list.len(),
    ensures
        draw_views(list).len() == list.len(),
        draw_views(list)[i] == list[i]@,
{
}

}
