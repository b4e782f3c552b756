//! The event dispatcher and application state.
//!
//! A single-threaded cooperative update loop merges three independent
//! sources — decoded capture events, a periodic tick and terminal input —
//! into one ordered command stream applied to the live event store and the
//! dashboard state.  Each iteration of the surrounding shell consumes
//! exactly one [`DispatchEvent`] and applies it here; the loop leaves the
//! `Running` state only on an explicit quit, cooperatively.

use vstd::prelude::*;
use crate::datetime::rendered_text;
use crate::process_service::{rendered_process_text, ProcessService, RenderedProcess};
use crate::store::{push_all, push_model, LiveEventStore};
use crate::textline::ProcessExecution;

verus! {

/// Height of one table row in the dashboard.
pub const ITEM_HEIGHT: usize = 1;

// ---------------------------------------------------------------------------
// Column widths (presentation hints kept alongside the store).
// ---------------------------------------------------------------------------

/// What `unicode_width` reports as the displayed column width of a text: a
/// function of the characters alone.
pub uninterp spec fn width_of(s: Seq<char>) -> nat;

/// Relies on `unicode_width::UnicodeWidthStr::width`: the displayed width
/// of a string in terminal columns.
#[verifier::external_body]
fn text_width(s: &str) -> (w: usize)
    ensures
        w as nat == width_of(s@),
{
    unicode_width::UnicodeWidthStr::width(s)
}

/// The widest cell of each dashboard column over the live rows.
pub struct LongestItenLens {
    pub timestamp: u16,
    pub username: u16,
    pub pid: u16,
    pub ppid: u16,
    pub comm: u16,
    pub args: u16,
}

impl Default for LongestItenLens {
    /// The column widths shown before any row has arrived.
    fn default() -> (r: Self)
        ensures
            r.timestamp == 18 && r.username == 10 && r.pid == 15 && r.ppid == 20 && r.comm == 15
                && r.args == 20,
    {
        Self { timestamp: 18, username: 10, pid: 15, ppid: 20, comm: 15, args: 20 }
    }
}

/// The largest of a non-empty width sequence.
pub open spec fn seq_max(s: Seq<int>) -> int
    recommends
        s.len() > 0,
    decreases s.len(),
{
    if s.len() <= 1 {
        s[0]
    } else if s.last() >= seq_max(s.drop_last()) {
        s.last()
    } else {
        seq_max(s.drop_last())
    }
}

/// The largest of a width sequence, or `dflt` when it is empty.
pub open spec fn max_or(s: Seq<int>, dflt: int) -> int {
    if s.len() == 0 {
        dflt
    } else {
        seq_max(s)
    }
}

/// The displayed widths of the rendered timestamps.
pub open spec fn timestamp_widths(items: Seq<ProcessExecution>) -> Seq<int> {
    Seq::new(items.len(), |i: int| width_of(rendered_text(items[i].timestamp)) as int)
}

/// The displayed widths of the usernames (an unresolved user shows empty).
pub open spec fn username_widths(items: Seq<ProcessExecution>) -> Seq<int> {
    Seq::new(
        items.len(),
        |i: int|
            width_of(
                match items[i].username {
                    Some(u) => u@,
                    None => Seq::<char>::empty(),
                },
            ) as int,
    )
}

/// The displayed widths of the command names.
pub open spec fn comm_widths(items: Seq<ProcessExecution>) -> Seq<int> {
    Seq::new(items.len(), |i: int| width_of(items[i].comm@) as int)
}

/// The displayed widths of the argument texts.
pub open spec fn args_widths(items: Seq<ProcessExecution>) -> Seq<int> {
    Seq::new(items.len(), |i: int| width_of(items[i].args@) as int)
}

/// The column widths the dashboard uses for a set of rows: the widest
/// rendered cell of each text column (truncated to the column type), the
/// empty-store defaults otherwise, and fixed widths for the numeric
/// columns.
pub open spec fn lens_of(items: Seq<ProcessExecution>) -> LongestItenLens {
    LongestItenLens {
        timestamp: max_or(timestamp_widths(items), 0) as u16,
        username: max_or(username_widths(items), 1) as u16,
        pid: 6,
        ppid: 15,
        comm: max_or(comm_widths(items), 0) as u16,
        args: max_or(args_widths(items), 0) as u16,
    }
}

/// Fold one more width into a running maximum.
fn fold_max(acc: usize, w: usize, i: usize, Ghost(s): Ghost<Seq<int>>) -> (r: usize)
    requires
        i < s.len(),
        s[i as int] == w as int,
        i > 0 ==> acc as int == seq_max(s.take(i as int)),
    ensures
        r as int == seq_max(s.take(i as int + 1)),
{
    proof {
        assert(s.take(i as int + 1).drop_last() =~= s.take(i as int));
        assert(s.take(i as int + 1).last() == s[i as int]);
    }
    if i == 0 {
        proof {
            assert(s.take(1).len() == 1);
            assert(s.take(1)[0] == s[i as int]);
        }
        w
    } else {
        if w >= acc {
            w
        } else {
            acc
        }
    }
}

/// Measure the widest rendered cell of each column, as the dashboard lays
/// the table out.
pub fn constraint_len_calculator(items: &LiveEventStore) -> (r: LongestItenLens)
    requires
        items.well_formed(),
    ensures
        r == lens_of(items@),
{
    let ghost iv = items@;
    let mut ts_max: usize = 0;
    let mut user_max: usize = 0;
    let mut comm_max: usize = 0;
    let mut args_max: usize = 0;
    let n = items.len();
    let mut i: usize = 0;
    while i < n
        invariant
            items.well_formed(),
            iv == items@,
            n == iv.len(),
            0 <= i <= n,
            i > 0 ==> ts_max as int == seq_max(timestamp_widths(iv).take(i as int)),
            i > 0 ==> user_max as int == seq_max(username_widths(iv).take(i as int)),
            i > 0 ==> comm_max as int == seq_max(comm_widths(iv).take(i as int)),
            i > 0 ==> args_max as int == seq_max(args_widths(iv).take(i as int)),
        decreases n - i,
    {
        let it = items.get(i);
        let ts_text = it.timestamp.to_text();
        let w_ts = text_width(ts_text.as_str());
        let w_user = match &it.username {
            Some(u) => text_width(u.as_str()),
            None => {
                let w = text_width("");
                proof {
                    reveal_strlit("");
                    assert(""@ =~= Seq::<char>::empty());
                }
                w
            },
        };
        let w_comm = text_width(it.comm.as_str());
        let w_args = text_width(it.args.as_str());
        ts_max = fold_max(ts_max, w_ts, i, Ghost(timestamp_widths(iv)));
        user_max = fold_max(user_max, w_user, i, Ghost(username_widths(iv)));
        comm_max = fold_max(comm_max, w_comm, i, Ghost(comm_widths(iv)));
        args_max = fold_max(args_max, w_args, i, Ghost(args_widths(iv)));
        i = i + 1;
    }
    proof {
        assert(timestamp_widths(iv).take(n as int) =~= timestamp_widths(iv));
        assert(username_widths(iv).take(n as int) =~= username_widths(iv));
        assert(comm_widths(iv).take(n as int) =~= comm_widths(iv));
        assert(args_widths(iv).take(n as int) =~= args_widths(iv));
    }
    if n == 0 {
        LongestItenLens {
            timestamp: 0,
            username: 1,
            pid: 6,
            ppid: 15,
            comm: 0,
            args: 0,
        }
    } else {
        LongestItenLens {
            timestamp: #[verifier::truncate] (ts_max as u16),
            username: #[verifier::truncate] (user_max as u16),
            pid: 6,
            ppid: 15,
            comm: #[verifier::truncate] (comm_max as u16),
            args: #[verifier::truncate] (args_max as u16),
        }
    }
}

// ---------------------------------------------------------------------------
// Dispatch events and key input.
// ---------------------------------------------------------------------------

/// A terminal key, reduced to what the dashboard reacts to.
#[derive(Clone, Copy, Debug, PartialEq, Eq, Structural)]
pub enum KeyCode {
    Esc,
    Enter,
    Up,
    Down,
    Left,
    Right,
    Char(char),
    Other,
}

/// One key press with its control modifier.
#[derive(Clone, Copy, Debug, PartialEq, Eq, Structural)]
pub struct KeyInput {
    pub code: KeyCode,
    pub ctrl: bool,
}

/// One admissible input of the update loop.  `Quit` and
/// `SelectionChanged` are generated internally; the other three arrive
/// from the timer, the terminal and the capture stream.  Transient, never
/// persisted.
pub enum DispatchEvent {
    /// Periodic timer tick: a render request, no state mutation.
    Tick,
    /// One terminal key.
    Input(KeyInput),
    /// One decoded capture event.
    CaptureEvent(ProcessExecution),
    /// Cooperative shutdown, emitted by the quit keys.
    Quit,
    /// Cursor movement notice: a render request, no state mutation.
    SelectionChanged,
}

/// What a key press is mapped to.
#[derive(Clone, Copy, Debug, PartialEq, Eq, Structural)]
pub enum KeyAction {
    /// Emit a `Quit` event for the loop to consume.
    EmitQuit,
    /// Move the selection down.
    MoveNext,
    /// Move the selection up.
    MovePrevious,
    /// Move the selected column right.
    ColumnNext,
    /// Move the selected column left.
    ColumnPrevious,
    /// Enrich the selected row from the process table.
    Enrich,
    /// Ignored.
    Nothing,
}

/// The command a key press maps to: `Esc` and `q` quit, so does
/// control-`c`; `j`/`k` and the arrows move the selection; `h`/`l` and
/// the arrows move the column; enter enriches the selected row.
pub open spec fn action_of(key: KeyInput) -> KeyAction {
    match key.code {
        KeyCode::Esc => KeyAction::EmitQuit,
        KeyCode::Enter => KeyAction::Enrich,
        KeyCode::Down => KeyAction::MoveNext,
        KeyCode::Up => KeyAction::MovePrevious,
        KeyCode::Right => KeyAction::ColumnNext,
        KeyCode::Left => KeyAction::ColumnPrevious,
        KeyCode::Char(c) => if c == 'q' {
            KeyAction::EmitQuit
        } else if (c == 'c' || c == 'C') && key.ctrl {
            KeyAction::EmitQuit
        } else if c == 'j' {
            KeyAction::MoveNext
        } else if c == 'k' {
            KeyAction::MovePrevious
        } else if c == 'l' {
            KeyAction::ColumnNext
        } else if c == 'h' {
            KeyAction::ColumnPrevious
        } else {
            KeyAction::Nothing
        },
        KeyCode::Other => KeyAction::Nothing,
    }
}

/// How many of the events are capture events.
pub open spec fn count_captures(es: Seq<DispatchEvent>) -> int
    decreases es.len(),
{
    if es.len() == 0 {
        0
    } else {
        count_captures(es.drop_last()) + (if es.last() is CaptureEvent {
            1int
        } else {
            0int
        })
    }
}

/// How many of the events are key inputs.
pub open spec fn count_inputs(es: Seq<DispatchEvent>) -> int
    decreases es.len(),
{
    if es.len() == 0 {
        0
    } else {
        count_inputs(es.drop_last()) + (if es.last() is Input {
            1int
        } else {
            0int
        })
    }
}

/// The capture payloads among the events, in order.
pub open spec fn captures_of(es: Seq<DispatchEvent>) -> Seq<ProcessExecution>
    decreases es.len(),
{
    if es.len() == 0 {
        Seq::empty()
    } else {
        captures_of(es.drop_last()) + (match es.last() {
            DispatchEvent::CaptureEvent(p) => seq![p],
            _ => Seq::empty(),
        })
    }
}

/// Pushing one more event is one more `push_model` step.
proof fn lemma_push_all_snoc(
    s: Seq<ProcessExecution>,
    cs: Seq<ProcessExecution>,
    p: ProcessExecution,
)
    ensures
        push_all(s, cs.push(p)) == push_model(push_all(s, cs), p),
    decreases cs.len(),
{
    if cs.len() == 0 {
        assert(cs.push(p)[0] == p);
        assert(cs.push(p).drop_first() =~= Seq::<ProcessExecution>::empty());
        assert(push_all(push_model(s, p), Seq::<ProcessExecution>::empty()) == push_model(
            s,
            p,
        ));
        assert(push_all(s, cs) == s);
    } else {
        assert(cs.push(p)[0] == cs[0]);
        assert(cs.push(p).drop_first() =~= cs.drop_first().push(p));
        lemma_push_all_snoc(push_model(s, cs[0]), cs.drop_first(), p);
    }
}

/// The footer text for one optional lookup result: its rendering, or
/// "not found" for a pid that no longer exists.
pub open spec fn lookup_text(r: Option<RenderedProcess>) -> Seq<char> {
    match r {
        Some(p) => rendered_process_text(p),
        None => "not found"@,
    }
}

/// The footer message enrichment writes: the renderings of the
/// process-table answers for the selected row's pid and parent pid.
pub open spec fn enrich_text(p: Option<RenderedProcess>, pp: Option<RenderedProcess>) -> Seq<
    char,
> {
    "pid: "@ + lookup_text(p) + "\n ppid: "@ + lookup_text(pp)
}

/// What enrichment does to the footer: with the cursor on a live row, the
/// footer becomes the rendering of some pair of process-table answers —
/// their values depend on the machine at the moment of the call — and
/// with no live row under the cursor nothing changes.
pub open spec fn enrich_outcome(pre: App, post: App) -> bool {
    match pre.processes.sel() {
        Some(i) => if 0 <= i < pre.processes@.len() {
            exists|p: Option<RenderedProcess>, pp: Option<RenderedProcess>|
                post.debug_message@ == enrich_text(p, pp)
        } else {
            post.debug_message == pre.debug_message
        },
        None => post.debug_message == pre.debug_message,
    }
}

// ---------------------------------------------------------------------------
// The application.
// ---------------------------------------------------------------------------

/// The dashboard application state: the running flag, the live event
/// store with its cursor, the presentation hints, and the enricher.  The
/// ghost counters witness that the dispatcher consumes every capture
/// event and every key exactly once.
pub struct App {
    /// Is the application running?
    pub running: bool,
    /// Bounded window of recent executions, with the selection cursor.
    pub processes: LiveEventStore,
    /// Scrollbar position, in rows.
    pub scroll_position: usize,
    /// Selected table column.
    pub selected_column: usize,
    /// Column widths for the current rows.
    pub longest_item_lens: LongestItenLens,
    /// The footer message, filled by enrichment.
    pub debug_message: String,
    /// The on-demand process enricher.
    pub process_service: ProcessService,
    /// How many key inputs the dispatcher has applied.
    pub inputs_handled: Ghost<nat>,
    /// How many capture events the dispatcher has pushed into the store.
    pub captures_stored: Ghost<nat>,
}

impl App {
    pub open spec fn well_formed(self) -> bool {
        self.processes.well_formed()
    }
}

impl Default for App {
    /// A running application over an empty store.
    fn default() -> (r: Self)
        ensures
            r.well_formed(),
            r.running == true,
            r.processes@ == Seq::<ProcessExecution>::empty(),
            r.processes.sel() == Some(0int),
            r.scroll_position == 0,
            r.selected_column == 0,
            r.longest_item_lens == (LongestItenLens {
                timestamp: 18u16,
                username: 10u16,
                pid: 15u16,
                ppid: 20u16,
                comm: 15u16,
                args: 20u16,
            }),
            r.debug_message@ == Seq::<char>::empty(),
            r.inputs_handled@ == 0,
            r.captures_stored@ == 0,
    {
        App {
            running: true,
            processes: LiveEventStore::new(),
            scroll_position: 0,
            selected_column: 0,
            longest_item_lens: LongestItenLens::default(),
            debug_message: String::new(),
            process_service: ProcessService::new(),
            inputs_handled: Ghost(0),
            captures_stored: Ghost(0),
        }
    }
}

impl App {
    /// Constructs a new instance of [`App`].
    pub fn new() -> (r: App)
        ensures
            r.well_formed(),
            r.running == true,
            r.processes@ == Seq::<ProcessExecution>::empty(),
            r.processes.sel() == Some(0int),
            r.scroll_position == 0,
            r.selected_column == 0,
            r.longest_item_lens == (LongestItenLens {
                timestamp: 18u16,
                username: 10u16,
                pid: 15u16,
                ppid: 20u16,
                comm: 15u16,
                args: 20u16,
            }),
            r.debug_message@ == Seq::<char>::empty(),
            r.inputs_handled@ == 0,
            r.captures_stored@ == 0,
    {
        App::default()
    }

    /// Handles the tick event of the terminal: a render request only, no
    /// state to update at the fixed frame rate.
    pub fn tick(&self) {
    }

    /// Set running to false to quit the application, cooperatively: the
    /// current loop iteration completes and the loop exits.
    pub fn quit(&mut self)
        requires
            old(self).well_formed(),
        ensures
            final(self).well_formed(),
            final(self).running == false,
            final(self).processes == old(self).processes,
            final(self).scroll_position == old(self).scroll_position,
            final(self).selected_column == old(self).selected_column,
            final(self).longest_item_lens == old(self).longest_item_lens,
            final(self).process_service == old(self).process_service,
            final(self).inputs_handled == old(self).inputs_handled,
            final(self).captures_stored == old(self).captures_stored,
            final(self).debug_message == old(self).debug_message,
    {
        self.running = false;
    }

    /// Show a message in the dashboard footer.
    pub fn print_msg(&mut self, msg: String)
        requires
            old(self).well_formed(),
        ensures
            final(self).well_formed(),
            final(self).debug_message == msg,
            final(self).running == old(self).running,
            final(self).processes == old(self).processes,
            final(self).inputs_handled == old(self).inputs_handled,
            final(self).captures_stored == old(self).captures_stored,
    {
        self.debug_message = msg;
    }

    /// Append one decoded execution to the live window, evicting the
    /// oldest entry at capacity, and refresh the column widths.
    pub fn add_process(&mut self, process: ProcessExecution)
        requires
            old(self).well_formed(),
            process.valid(),
        ensures
            final(self).well_formed(),
            final(self).processes@ == push_model(old(self).processes@, process),
            final(self).processes.sel() == old(self).processes.sel(),
            final(self).longest_item_lens == lens_of(final(self).processes@),
            final(self).running == old(self).running,
            final(self).scroll_position == old(self).scroll_position,
            final(self).selected_column == old(self).selected_column,
            final(self).process_service == old(self).process_service,
            final(self).inputs_handled == old(self).inputs_handled,
            final(self).captures_stored == old(self).captures_stored,
            final(self).debug_message == old(self).debug_message,
    {
        self.processes.push(process);
        self.longest_item_lens = constraint_len_calculator(&self.processes);
    }

    /// Move the selection down one row, wrapping at the end, and follow
    /// with the scrollbar.
    pub fn next_row(&mut self)
        requires
            old(self).well_formed(),
        ensures
            final(self).well_formed(),
            final(self).processes@ == old(self).processes@,
            old(self).processes@.len() == 0 ==> *final(self) == *old(self),
            old(self).processes@.len() > 0 ==> final(self).processes.sel() == Some(
                old(self).processes.next_position(),
            ) && final(self).scroll_position == old(self).processes.next_position()
                * ITEM_HEIGHT,
            final(self).running == old(self).running,
            final(self).inputs_handled == old(self).inputs_handled,
            final(self).captures_stored == old(self).captures_stored,
            final(self).debug_message == old(self).debug_message,
    {
        if self.processes.len() == 0 {
            return ;
        }
        self.processes.selection_next();
        match self.processes.selection() {
            Some(i) => {
                self.scroll_position = i * ITEM_HEIGHT;
            },
            None => {},
        }
    }

    /// Move the selection up one row, wrapping at the start, and follow
    /// with the scrollbar.
    pub fn previous_row(&mut self)
        requires
            old(self).well_formed(),
        ensures
            final(self).well_formed(),
            final(self).processes@ == old(self).processes@,
            old(self).processes@.len() == 0 ==> *final(self) == *old(self),
            old(self).processes@.len() > 0 ==> final(self).processes.sel() == Some(
                old(self).processes.previous_position(),
            ) && final(self).scroll_position == old(self).processes.previous_position()
                * ITEM_HEIGHT,
            final(self).running == old(self).running,
            final(self).inputs_handled == old(self).inputs_handled,
            final(self).captures_stored == old(self).captures_stored,
            final(self).debug_message == old(self).debug_message,
    {
        if self.processes.len() == 0 {
            return ;
        }
        self.processes.selection_previous();
        match self.processes.selection() {
            Some(i) => {
                self.scroll_position = i * ITEM_HEIGHT;
            },
            None => {},
        }
    }

    /// Select the next table column.
    pub fn next_column(&mut self)
        requires
            old(self).well_formed(),
        ensures
            final(self).well_formed(),
            final(self).selected_column == (if old(self).selected_column < usize::MAX {
                old(self).selected_column + 1
            } else {
                old(self).selected_column as int
            }),
            final(self).processes == old(self).processes,
            final(self).running == old(self).running,
            final(self).debug_message == old(self).debug_message,
            final(self).scroll_position == old(self).scroll_position,
            final(self).inputs_handled == old(self).inputs_handled,
            final(self).captures_stored == old(self).captures_stored,
    {
        if self.selected_column < usize::MAX {
            self.selected_column = self.selected_column + 1;
        }
    }

    /// Select the previous table column.
    pub fn previous_column(&mut self)
        requires
            old(self).well_formed(),
        ensures
            final(self).well_formed(),
            final(self).selected_column == (if old(self).selected_column > 0 {
                old(self).selected_column - 1
            } else {
                0int
            }),
            final(self).processes == old(self).processes,
            final(self).running == old(self).running,
            final(self).debug_message == old(self).debug_message,
            final(self).scroll_position == old(self).scroll_position,
            final(self).inputs_handled == old(self).inputs_handled,
            final(self).captures_stored == old(self).captures_stored,
    {
        if self.selected_column > 0 {
            self.selected_column = self.selected_column - 1;
        }
    }

    /// Enrich the selected row: look its pid and parent pid up in the
    /// live process table and show the result in the footer.  What the
    /// table answers depends on the machine at this moment, so only the
    /// footer changes.
    fn enrich_selected(&mut self)
        requires
            old(self).well_formed(),
        ensures
            final(self).well_formed(),
            final(self).processes == old(self).processes,
            final(self).running == old(self).running,
            final(self).scroll_position == old(self).scroll_position,
            final(self).selected_column == old(self).selected_column,
            final(self).longest_item_lens == old(self).longest_item_lens,
            final(self).inputs_handled == old(self).inputs_handled,
            final(self).captures_stored == old(self).captures_stored,
            enrich_outcome(*old(self), *final(self)),
    {
        let sel = self.processes.selection();
        let i = match sel {
            Some(i) => i,
            None => {
                return ;
            },
        };
        if i >= self.processes.len() {
            return ;
        }
        let pid = self.processes.get(i).pid;
        let ppid = self.processes.get(i).ppid;
        let process = self.process_service.get_process(pid as usize);
        let parent_process = self.process_service.get_process(ppid as usize);
        let mut msg = String::new();
        msg.append("pid: ");
        match &process {
            Some(rp) => {
                let t = rp.render_text();
                msg.append(t.as_str());
            },
            None => {
                msg.append("not found");
            },
        }
        msg.append("\n ppid: ");
        match &parent_process {
            Some(rp) => {
                let t = rp.render_text();
                msg.append(t.as_str());
            },
            None => {
                msg.append("not found");
            },
        }
        proof {
            assert(msg@ =~= enrich_text(process, parent_process));
        }
        self.debug_message = msg;
        proof {
            assert(self.debug_message@ == enrich_text(process, parent_process));
        }
    }

    /// Apply one key press: quit keys emit a `Quit` event for the loop to
    /// consume; movement keys update the cursor synchronously; enter
    /// enriches the selected row.
    pub fn handle_key_event(&mut self, key: KeyInput) -> (emit: Option<DispatchEvent>)
        requires
            old(self).well_formed(),
        ensures
            final(self).well_formed(),
            final(self).processes@ == old(self).processes@,
            final(self).running == old(self).running,
            final(self).inputs_handled == old(self).inputs_handled,
            final(self).captures_stored == old(self).captures_stored,
            emit == (if action_of(key) is EmitQuit {
                Some(DispatchEvent::Quit)
            } else {
                Option::<DispatchEvent>::None
            }),
            match action_of(key) {
                KeyAction::EmitQuit => *final(self) == *old(self),
                KeyAction::MoveNext => {
                    &&& old(self).processes@.len() > 0 ==> final(self).processes.sel() == Some(
                        old(self).processes.next_position(),
                    )
                    &&& old(self).processes@.len() == 0 ==> final(self).processes == old(
                        self,
                    ).processes
                    &&& final(self).debug_message == old(self).debug_message
                },
                KeyAction::MovePrevious => {
                    &&& old(self).processes@.len() > 0 ==> final(self).processes.sel() == Some(
                        old(self).processes.previous_position(),
                    )
                    &&& old(self).processes@.len() == 0 ==> final(self).processes == old(
                        self,
                    ).processes
                    &&& final(self).debug_message == old(self).debug_message
                },
                KeyAction::ColumnNext => final(self).processes == old(self).processes
                    && final(self).debug_message == old(self).debug_message,
                KeyAction::ColumnPrevious => final(self).processes == old(self).processes
                    && final(self).debug_message == old(self).debug_message,
                KeyAction::Enrich => {
                    &&& final(self).processes == old(self).processes
                    &&& final(self).scroll_position == old(self).scroll_position
                    &&& final(self).selected_column == old(self).selected_column
                    &&& final(self).longest_item_lens == old(self).longest_item_lens
                    &&& enrich_outcome(*old(self), *final(self))
                },
                KeyAction::Nothing => *final(self) == *old(self),
            },
    {
        let is_quit: bool = match key.code {
            KeyCode::Esc => true,
            KeyCode::Char(c) => c == 'q' || ((c == 'c' || c == 'C') && key.ctrl),
            _ => false,
        };
        if is_quit {
            return Some(DispatchEvent::Quit);
        }
        match key.code {
            KeyCode::Down => {
                self.next_row();
                None
            },
            KeyCode::Up => {
                self.previous_row();
                None
            },
            KeyCode::Right => {
                self.next_column();
                None
            },
            KeyCode::Left => {
                self.previous_column();
                None
            },
            KeyCode::Enter => {
                self.enrich_selected();
                None
            },
            KeyCode::Char(c) => {
                if c == 'j' {
                    self.next_row();
                } else if c == 'k' {
                    self.previous_row();
                } else if c == 'l' {
                    self.next_column();
                } else if c == 'h' {
                    self.previous_column();
                }
                None
            },
            _ => None,
        }
    }

    /// Consume exactly one pending event and apply it.  A tick requests a
    /// render and mutates nothing; a key press maps to its command; a
    /// capture event is pushed into the store; `Quit` stops the loop
    /// cooperatively.  The emitted event, if any, is for the surrounding
    /// loop to enqueue.
    pub fn handle_events(&mut self, event: DispatchEvent) -> (emit: Option<DispatchEvent>)
        requires
            old(self).well_formed(),
            event matches DispatchEvent::CaptureEvent(p) ==> p.valid(),
        ensures
            final(self).well_formed(),
            final(self).captures_stored@ == old(self).captures_stored@ + (
            if event is CaptureEvent {
                1int
            } else {
                0int
            }),
            final(self).inputs_handled@ == old(self).inputs_handled@ + (if event is Input {
                1int
            } else {
                0int
            }),
            match event {
                DispatchEvent::Tick => *final(self) == *old(self) && emit is None,
                DispatchEvent::SelectionChanged => *final(self) == *old(self) && emit is None,
                DispatchEvent::Quit => final(self).running == false && final(self).processes
                    == old(self).processes && emit is None,
                DispatchEvent::CaptureEvent(p) => {
                    &&& final(self).processes@ == push_model(old(self).processes@, p)
                    &&& final(self).processes.sel() == old(self).processes.sel()
                    &&& final(self).running == old(self).running
                    &&& emit is None
                },
                DispatchEvent::Input(k) => {
                    &&& final(self).processes@ == old(self).processes@
                    &&& final(self).running == old(self).running
                    &&& emit == (if action_of(k) is EmitQuit {
                        Some(DispatchEvent::Quit)
                    } else {
                        Option::<DispatchEvent>::None
                    })
                },
            },
    {
        match event {
            DispatchEvent::Tick => {
                self.tick();
                None
            },
            DispatchEvent::SelectionChanged => None,
            DispatchEvent::Quit => {
                self.quit();
                None
            },
            DispatchEvent::CaptureEvent(process) => {
                self.add_process(process);
                proof {
                    self.captures_stored@ = self.captures_stored@ + 1;
                }
                None
            },
            DispatchEvent::Input(key) => {
                let emit = self.handle_key_event(key);
                proof {
                    self.inputs_handled@ = self.inputs_handled@ + 1;
                }
                emit
            },
        }
    }

    /// Dispatcher fairness law: applying any interleaving of events
    /// consumes each exactly once — every capture event lands in the
    /// store as one push, in arrival order, and every key input drives
    /// exactly one key transition, with no loss or duplication regardless
    /// of the interleaving.  The emitted events (quits) come back for the
    /// loop to enqueue.
    pub fn run_events(&mut self, events: Vec<DispatchEvent>) -> (emitted: Vec<DispatchEvent>)
        requires
            old(self).well_formed(),
            forall|i: int|
                0 <= i < events@.len() ==> ((#[trigger] events@[i]) matches
                DispatchEvent::CaptureEvent(p) ==> p.valid()),
        ensures
            final(self).well_formed(),
            final(self).captures_stored@ == old(self).captures_stored@ + count_captures(
                events@,
            ),
            final(self).inputs_handled@ == old(self).inputs_handled@ + count_inputs(events@),
            final(self).processes@ == push_all(old(self).processes@, captures_of(events@)),
    {
        let ghost ev = events@;
        let mut emitted: Vec<DispatchEvent> = Vec::new();
        let n = events.len();
        let mut i: usize = 0;
        proof {
            assert(captures_of(ev.take(0)) =~= Seq::<ProcessExecution>::empty());
            assert(push_all(old(self).processes@, Seq::<ProcessExecution>::empty()) == old(
                self,
            ).processes@);
        }
        let mut events = events;
        while i < n
            invariant
                self.well_formed(),
                n == ev.len(),
                events@ == ev.subrange(i as int, ev.len() as int),
                0 <= i <= n,
                forall|k: int|
                    0 <= k < ev.len() ==> ((#[trigger] ev[k]) matches
                    DispatchEvent::CaptureEvent(p) ==> p.valid()),
                self.captures_stored@ == old(self).captures_stored@ + count_captures(
                    ev.take(i as int),
                ),
                self.inputs_handled@ == old(self).inputs_handled@ + count_inputs(
                    ev.take(i as int),
                ),
                self.processes@ == push_all(old(self).processes@, captures_of(ev.take(i as int))),
            decreases n - i,
        {
            let event = events.remove(0);
            proof {
                assert(events@ =~= ev.subrange(i as int + 1, ev.len() as int));
            }
            let e = self.handle_events(event);
            match e {
                Some(out) => {
                    emitted.push(out);
                },
                None => {},
            }
            proof {
                assert(ev.take(i as int + 1).drop_last() =~= ev.take(i as int));
                assert(ev.take(i as int + 1).last() == ev[i as int]);
                match ev[i as int] {
                    DispatchEvent::CaptureEvent(p) => {
                        assert(captures_of(ev.take(i as int + 1)) =~= captures_of(
                            ev.take(i as int),
                        ).push(p));
                        lemma_push_all_snoc(
                            old(self).processes@,
                            captures_of(ev.take(i as int)),
                            p,
                        );
                    },
                    _ => {
                        assert(captures_of(ev.take(i as int + 1)) =~= captures_of(
                            ev.take(i as int),
                        ));
                    },
                }
            }
            i = i + 1;
        }
        proof {
            assert(ev.take(n as int) =~= ev);
        }
        emitted
    }
}

} // verus!
