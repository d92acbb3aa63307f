//! The decisions of the interactive view: which process is selected, which
//! panes are shown, what a key or a click does, and the transient status line.
//! The terminal loop feeds events and the time in; it draws, and sends the
//! signals that the decisions ask for.
use vstd::prelude::*;
use crate::number::{signed_chars, signed_decimal};
use crate::snapshot::ProcessInfo;
use crate::text::{append_str, has_prefix, push_chars};

verus! {

/// A key as the view tells keys apart.
#[derive(Clone, Copy, Debug, PartialEq, Eq)]
pub enum Key {
    Char(char),
    Enter,
    F(u8),
    Up,
    Down,
    Other,
}

/// An input event.
#[derive(Clone, Copy, Debug, PartialEq, Eq)]
pub enum UiEvent {
    Key(Key),
    /// The left mouse button went down at this cell.
    LeftClick { column: u16, row: u16 },
    Other,
}

/// The signals that the view can send to a process.
#[derive(Clone, Copy, Debug, PartialEq, Eq)]
pub enum Signal {
    /// `SIGTERM`.
    Term,
    /// `SIGKILL`.
    Kill,
}

/// What the terminal loop does after an event.
#[derive(Clone, Copy, Debug, PartialEq, Eq)]
pub enum UiAction {
    /// Draw the next frame.
    Continue,
    /// Leave the view.
    Quit,
    /// Send `signal` to process `pid`, then report the outcome with
    /// [`UiState::record_signal_result`].
    SendSignal { pid: i32, signal: Signal },
}

/// A left click: when (ns on the loop's clock) and where.
#[derive(Clone, Copy, Debug, PartialEq, Eq)]
pub struct Click {
    pub at_ns: u64,
    pub column: u16,
    pub row: u16,
}

/// The state of the view between frames.
#[derive(Debug)]
pub struct UiState {
    /// The details pane is shown beside the process table.
    pub show_details: bool,
    /// The details pane shows the selected process rather than the CPUs.
    pub show_proc_details: bool,
    /// Index of the selected process row.
    pub selected: usize,
    /// Top row of the process table's area in the last frame.
    pub table_top: Option<u16>,
    /// Index of the process in the table's first visible row (the table's
    /// scroll offset) in the last frame.
    pub table_offset: usize,
    /// The last left click that selected a row, for double clicks.
    pub last_click: Option<Click>,
    /// The transient status line, and when (ns) it expires.
    pub status_msg: Option<String>,
    pub status_expire_ns: Option<u64>,
}

/// Longest time between two clicks of a double click, in milliseconds.
pub const DOUBLE_CLICK_MS: u64 = 300;

/// How long a status message stays, in nanoseconds.
pub const STATUS_NS: u64 = 2_000_000_000;

/// Table rows above the first process row: the border and the header.
pub const TABLE_HEADER_ROWS: u16 = 2;

/// The view's starting state: table only, first row selected.
pub open spec fn initial_state() -> UiState {
    UiState {
        show_details: false,
        show_proc_details: false,
        selected: 0,
        table_top: None,
        table_offset: 0,
        last_click: None,
        status_msg: None,
        status_expire_ns: None,
    }
}

/// The selection kept within `n` rows: the last row when it is beyond them;
/// unchanged when there are none.
pub open spec fn clamp_selection(selected: usize, n: nat) -> usize {
    if n > 0 && selected >= n {
        (n - 1) as usize
    } else {
        selected
    }
}

/// The status message is past its expiry at `now`.
pub open spec fn status_expired(s: UiState, now: u64) -> bool {
    match s.status_expire_ns {
        Some(e) => now > e,
        None => false,
    }
}

/// The state at the start of a frame that lists `n` processes, at time `now`,
/// with the process table's top row at `top`.
pub open spec fn frame_state(s: UiState, n: nat, now: u64, top: u16) -> UiState {
    let expired = status_expired(s, now);
    UiState {
        show_details: s.show_details,
        show_proc_details: s.show_proc_details,
        selected: clamp_selection(s.selected, n),
        table_top: Some(top),
        table_offset: s.table_offset,
        last_click: s.last_click,
        status_msg: if expired {
            None
        } else {
            s.status_msg
        },
        status_expire_ns: if expired {
            None
        } else {
            s.status_expire_ns
        },
    }
}

/// `s` with the details pane toggled.
pub open spec fn with_details_toggled(s: UiState) -> UiState {
    UiState { show_details: !s.show_details, ..s }
}

/// `s` with the process details toggled.
pub open spec fn with_proc_details_toggled(s: UiState) -> UiState {
    UiState { show_proc_details: !s.show_proc_details, ..s }
}

/// `s` with `selected` as the selection.
pub open spec fn with_selected(s: UiState, selected: usize) -> UiState {
    UiState { selected, ..s }
}

/// What a key does to the state when the table lists `n` processes.
pub open spec fn key_state(s: UiState, k: Key, n: nat) -> UiState {
    match k {
        Key::Char(c) => if c == 'd' || c == 'D' {
            with_details_toggled(s)
        } else if c == '\n' {
            with_proc_details_toggled(s)
        } else {
            s
        },
        Key::F(x) => if x == 4 {
            with_details_toggled(s)
        } else {
            s
        },
        Key::Enter => with_proc_details_toggled(s),
        Key::Up => if s.selected > 0 {
            with_selected(s, (s.selected - 1) as usize)
        } else {
            s
        },
        Key::Down => if s.selected + 1 < n {
            with_selected(s, (s.selected + 1) as usize)
        } else {
            s
        },
        Key::Other => s,
    }
}

/// The process under screen row `row`, when the table's top row is `top` and
/// its first visible row shows process `offset`: the border and the header
/// come first, and rows above the first process row count as the first.
/// `top + 2` wraps at 2^16 as the release build does.
pub open spec fn clicked_row(top: u16, offset: usize, row: u16) -> nat {
    let base = vstd::wrapping::u16_specs::wrapping_add(top, TABLE_HEADER_ROWS);
    offset as nat + if row >= base {
        (row - base) as nat
    } else {
        0
    }
}

/// `s` with the table's scroll offset of the frame just drawn.
pub open spec fn with_table_offset(s: UiState, offset: usize) -> UiState {
    UiState { table_offset: offset, ..s }
}

/// The click `c` and one at `now` on cell (`column`, `row`) make a double
/// click: same cell, at most [`DOUBLE_CLICK_MS`] whole milliseconds apart.
pub open spec fn is_double_click(c: Click, now: u64, column: u16, row: u16) -> bool {
    let elapsed: nat = if now >= c.at_ns {
        (now - c.at_ns) as nat
    } else {
        0
    };
    &&& elapsed / 1_000_000 <= DOUBLE_CLICK_MS
    &&& c.column == column
    &&& c.row == row
}

/// What a left click at (`column`, `row`) does when the table lists `n`
/// processes: a click on a process row selects it, and a second click on the
/// same cell soon after toggles the process details.
pub open spec fn click_state(s: UiState, column: u16, row: u16, n: nat, now: u64) -> UiState {
    match s.table_top {
        None => s,
        Some(top) => {
            let idx = clicked_row(top, s.table_offset, row);
            if idx < n {
                let chosen = with_selected(s, idx as usize);
                match s.last_click {
                    Some(c) => if is_double_click(c, now, column, row) {
                        UiState {
                            show_proc_details: !s.show_proc_details,
                            last_click: None,
                            ..chosen
                        }
                    } else {
                        UiState { last_click: Some(Click { at_ns: now, column, row }), ..chosen }
                    },
                    None => UiState { last_click: Some(Click { at_ns: now, column, row }), ..chosen },
                }
            } else {
                s
            }
        },
    }
}

/// The state after event `ev` when the table lists `n` processes, at `now`.
pub open spec fn next_state(s: UiState, ev: UiEvent, n: nat, now: u64) -> UiState {
    match ev {
        UiEvent::Key(k) => key_state(s, k, n),
        UiEvent::LeftClick { column, row } => click_state(s, column, row, n, now),
        UiEvent::Other => s,
    }
}

/// Send `signal` to the selected process, if a process is selected.
pub open spec fn signal_action(s: UiState, pids: Seq<i32>, signal: Signal) -> UiAction {
    if s.selected < pids.len() {
        UiAction::SendSignal { pid: pids[s.selected as int], signal }
    } else {
        UiAction::Continue
    }
}

/// What the loop does after event `ev`, when the listed processes have the
/// ids `pids`: `q`/`Q` quit, `k` sends SIGTERM and `K` SIGKILL to the
/// selected process.
pub open spec fn event_action(s: UiState, ev: UiEvent, pids: Seq<i32>) -> UiAction {
    match ev {
        UiEvent::Key(Key::Char(c)) => if c == 'q' || c == 'Q' {
            UiAction::Quit
        } else if c == 'k' {
            signal_action(s, pids, Signal::Term)
        } else if c == 'K' {
            signal_action(s, pids, Signal::Kill)
        } else {
            UiAction::Continue
        },
        _ => UiAction::Continue,
    }
}

/// The ids of the listed processes.
pub open spec fn pids_of(procs: Seq<ProcessInfo>) -> Seq<i32> {
    procs.map_values(|p: ProcessInfo| p.pid)
}

/// The name of a signal.
pub open spec fn signal_name(sig: Signal) -> Seq<char> {
    match sig {
        Signal::Term => "SIGTERM"@,
        Signal::Kill => "SIGKILL"@,
    }
}

/// The status line after sending `sig` to `pid`: sent, or failed with the
/// system's error text.
pub open spec fn signal_report(sig: Signal, pid: i32, error: Option<Seq<char>>) -> Seq<char> {
    match error {
        None => signal_name(sig) + " sent to PID "@ + signed_decimal(pid as int),
        Some(e) => signal_name(sig) + " failed: "@ + e,
    }
}

impl UiState {
    /// The view's starting state: table only, first row selected.
    pub fn new() -> (r: UiState)
        ensures
            r == initial_state(),
    {
        UiState {
            show_details: false,
            show_proc_details: false,
            selected: 0,
            table_top: None,
            table_offset: 0,
            last_click: None,
            status_msg: None,
            status_expire_ns: None,
        }
    }

    /// Starts a frame that lists `n` processes, at time `now_ns`, with the
    /// process table's top row at `table_top`: keeps the selection within the
    /// rows, drops an expired status message, and returns the row to
    /// highlight (none when the table is empty).
    pub fn begin_frame(&mut self, n: usize, now_ns: u64, table_top: u16) -> (r: Option<usize>)
        ensures
            *final(self) == frame_state(*old(self), n as nat, now_ns, table_top),
            r == (if n > 0 {
                Some(final(self).selected)
            } else {
                None::<usize>
            }),
            n > 0 ==> final(self).selected < n,
            final(self).status_msg is Some ==> !status_expired(*old(self), now_ns),
    {
        if n > 0 && self.selected >= n {
            self.selected = n - 1;
        }
        self.table_top = Some(table_top);
        let expired = match self.status_expire_ns {
            Some(e) => now_ns > e,
            None => false,
        };
        if expired {
            self.status_msg = None;
            self.status_expire_ns = None;
        }
        if n > 0 {
            Some(self.selected)
        } else {
            None
        }
    }

    /// Records the table's scroll offset (the process in its first visible
    /// row) once the frame is drawn, so that a click maps to the row shown.
    pub fn set_table_offset(&mut self, offset: usize)
        ensures
            *final(self) == with_table_offset(*old(self), offset),
    {
        self.table_offset = offset;
    }

    /// Applies event `ev` when the table lists `procs`, at time `now_ns`, and
    /// says what the loop does next.
    pub fn handle_event(&mut self, ev: UiEvent, procs: &Vec<ProcessInfo>, now_ns: u64) -> (r:
        UiAction)
        ensures
            *final(self) == next_state(*old(self), ev, procs@.len(), now_ns),
            r == event_action(*old(self), ev, pids_of(procs@)),
            ev == UiEvent::Key(Key::Char('k')) && old(self).selected < procs@.len() ==> r == (UiAction::SendSignal {
                pid: procs@[old(self).selected as int].pid,
                signal: Signal::Term,
            }),
            ev == UiEvent::Key(Key::Char('K')) && old(self).selected < procs@.len() ==> r == (UiAction::SendSignal {
                pid: procs@[old(self).selected as int].pid,
                signal: Signal::Kill,
            }),
    {
        let n = procs.len();
        match ev {
            UiEvent::Key(k) => match k {
                Key::Char(c) => {
                    if c == 'q' || c == 'Q' {
                        UiAction::Quit
                    } else if c == 'd' || c == 'D' {
                        self.show_details = !self.show_details;
                        UiAction::Continue
                    } else if c == '\n' {
                        self.show_proc_details = !self.show_proc_details;
                        UiAction::Continue
                    } else if c == 'k' || c == 'K' {
                        let signal = if c == 'k' {
                            Signal::Term
                        } else {
                            Signal::Kill
                        };
                        if self.selected < n {
                            UiAction::SendSignal { pid: procs[self.selected].pid, signal }
                        } else {
                            UiAction::Continue
                        }
                    } else {
                        UiAction::Continue
                    }
                },
                Key::F(x) => {
                    if x == 4 {
                        self.show_details = !self.show_details;
                    }
                    UiAction::Continue
                },
                Key::Enter => {
                    self.show_proc_details = !self.show_proc_details;
                    UiAction::Continue
                },
                Key::Up => {
                    if self.selected > 0 {
                        self.selected = self.selected - 1;
                    }
                    UiAction::Continue
                },
                Key::Down => {
                    if n > 0 && self.selected < n - 1 {
                        self.selected = self.selected + 1;
                    }
                    UiAction::Continue
                },
                Key::Other => UiAction::Continue,
            },
            UiEvent::LeftClick { column, row } => {
                self.click(column, row, n, now_ns);
                UiAction::Continue
            },
            UiEvent::Other => UiAction::Continue,
        }
    }

    fn click(&mut self, column: u16, row: u16, n: usize, now_ns: u64)
        ensures
            *final(self) == click_state(*old(self), column, row, n as nat, now_ns),
    {
        match self.table_top {
            None => {},
            Some(top) => {
                let base = top.wrapping_add(TABLE_HEADER_ROWS);
                let rel = row.saturating_sub(base) as usize;
                if rel < n && self.table_offset < n - rel {
                    self.selected = self.table_offset + rel;
                    let double = match self.last_click {
                        Some(c) => {
                            let elapsed = now_ns.saturating_sub(c.at_ns);
                            elapsed / 1_000_000 <= DOUBLE_CLICK_MS && c.column == column && c.row
                                == row
                        },
                        None => false,
                    };
                    if double {
                        self.show_proc_details = !self.show_proc_details;
                        self.last_click = None;
                    } else {
                        self.last_click = Some(Click { at_ns: now_ns, column, row });
                    }
                }
            },
        }
    }

    /// Records the outcome of sending `signal` to `pid` at time `now_ns`
    /// (`error` is the system's error text when it failed) as the status
    /// line, which expires [`STATUS_NS`] later.
    pub fn record_signal_result(&mut self, signal: Signal, pid: i32, error: Option<&str>, now_ns: u64)
        requires
            now_ns + STATUS_NS <= u64::MAX,
        ensures
            final(self).status_msg matches Some(m) && m@ == signal_report(
                signal,
                pid,
                match error {
                    Some(e) => Some(e@),
                    None => None,
                },
            ),
            final(self).status_expire_ns == Some((now_ns + STATUS_NS) as u64),
            final(self).status_msg matches Some(m) && has_prefix(
                m@,
                match signal {
                    Signal::Term => "SIGTERM"@,
                    Signal::Kill => "SIGKILL"@,
                },
            ),
            final(self).show_details == old(self).show_details,
            final(self).show_proc_details == old(self).show_proc_details,
            final(self).selected == old(self).selected,
            final(self).table_top == old(self).table_top,
            final(self).table_offset == old(self).table_offset,
            final(self).last_click == old(self).last_click,
    {
        proof {
            lemma_signal_report_names_signal(
                signal,
                pid,
                match error {
                    Some(e) => Some(e@),
                    None => None,
                },
            );
        }
        let mut msg = String::new();
        match signal {
            Signal::Term => append_str(&mut msg, "SIGTERM"),
            Signal::Kill => append_str(&mut msg, "SIGKILL"),
        }
        match error {
            None => {
                append_str(&mut msg, " sent to PID ");
                let d = signed_chars(pid as i64);
                push_chars(&mut msg, d.as_slice());
            },
            Some(e) => {
                append_str(&mut msg, " failed: ");
                append_str(&mut msg, e);
            },
        }
        proof {
            let expected = signal_report(
                signal,
                pid,
                match error {
                    Some(e) => Some(e@),
                    None => None,
                },
            );
            assert(msg@ =~= expected);
        }
        self.status_msg = Some(msg);
        self.status_expire_ns = Some(now_ns + STATUS_NS);
    }
}

// ---------------------------------------------------------------------------
// Laws of the view
// ---------------------------------------------------------------------------
/// The arrow keys keep the selection on a listed process.
pub proof fn lemma_arrows_keep_selection(s: UiState, n: nat, now: u64)
    requires
        s.selected < n,
    ensures
        next_state(s, UiEvent::Key(Key::Up), n, now).selected < n,
        next_state(s, UiEvent::Key(Key::Down), n, now).selected < n,
{
}

/// Down then Up comes back to the same row, when there is a row below.
pub proof fn lemma_down_then_up(s: UiState, n: nat, now: u64)
    requires
        s.selected + 1 < n,
        n <= usize::MAX,
    ensures
        next_state(next_state(s, UiEvent::Key(Key::Down), n, now), UiEvent::Key(Key::Up), n, now)
            == s,
{
    let down = with_selected(s, (s.selected + 1) as usize);
    assert(next_state(s, UiEvent::Key(Key::Down), n, now) == down);
    assert(with_selected(down, s.selected) == s);
}

/// Each toggle key, pressed twice, leaves the state as it was.
pub proof fn lemma_toggles_twice(s: UiState, n: nat, now: u64)
    ensures
        next_state(next_state(s, UiEvent::Key(Key::Char('d')), n, now), UiEvent::Key(Key::Char('D')), n, now) == s,
        next_state(next_state(s, UiEvent::Key(Key::F(4)), n, now), UiEvent::Key(Key::F(4)), n, now) == s,
        next_state(next_state(s, UiEvent::Key(Key::Enter), n, now), UiEvent::Key(Key::Enter), n, now) == s,
        next_state(s, UiEvent::Key(Key::Char('d')), n, now).show_details != s.show_details,
        next_state(s, UiEvent::Key(Key::Enter), n, now).show_proc_details != s.show_proc_details,
{
    assert(with_details_toggled(with_details_toggled(s)) == s);
    assert(with_proc_details_toggled(with_proc_details_toggled(s)) == s);
}

/// A signal goes only to the selected process: SIGTERM on `k`, SIGKILL on
/// `K`; and only `q` or `Q` quits.
pub proof fn lemma_signals_target_selection(s: UiState, ev: UiEvent, pids: Seq<i32>)
    ensures
        event_action(s, ev, pids) matches UiAction::SendSignal { pid, signal } ==> {
            &&& s.selected < pids.len()
            &&& pid == pids[s.selected as int]
            &&& (signal == Signal::Term <==> ev == UiEvent::Key(Key::Char('k')))
            &&& (signal == Signal::Kill <==> ev == UiEvent::Key(Key::Char('K')))
        },
        event_action(s, ev, pids) == UiAction::Quit <==> (ev == UiEvent::Key(Key::Char('q')) || ev
            == UiEvent::Key(Key::Char('Q'))),
{
}

/// With a process selected, `k` sends SIGTERM and `K` sends SIGKILL to that
/// process, whichever row it is.
pub proof fn lemma_kill_keys_signal_selection(s: UiState, pids: Seq<i32>)
    requires
        s.selected < pids.len(),
    ensures
        event_action(s, UiEvent::Key(Key::Char('k')), pids) == (UiAction::SendSignal {
            pid: pids[s.selected as int],
            signal: Signal::Term,
        }),
        event_action(s, UiEvent::Key(Key::Char('K')), pids) == (UiAction::SendSignal {
            pid: pids[s.selected as int],
            signal: Signal::Kill,
        }),
{
}

/// A click on a process row that is not a second click on the same cell
/// within 300 ms (another cell, or later) selects the row, leaves the
/// process details as they were, and becomes the last click.
pub proof fn lemma_other_click_only_selects(
    s: UiState,
    column: u16,
    row: u16,
    n: nat,
    now: u64,
)
    requires
        s.table_top is Some,
        clicked_row(s.table_top->0, s.table_offset, row) < n,
        n <= usize::MAX,
        s.last_click matches Some(c) && (c.column != column || c.row != row || (now >= c.at_ns
            && (now - c.at_ns) / 1_000_000 > 300)),
    ensures
        click_state(s, column, row, n, now).selected == clicked_row(s.table_top->0, s.table_offset, row),
        click_state(s, column, row, n, now).show_proc_details == s.show_proc_details,
        click_state(s, column, row, n, now).show_details == s.show_details,
        click_state(s, column, row, n, now).last_click == Some(Click { at_ns: now, column, row }),
{
}

/// The status line after a signal names that signal first: `SIGTERM` or
/// `SIGKILL`, then ` sent to PID ` and the pid, or ` failed: ` and the
/// system's error text.
pub proof fn lemma_signal_report_names_signal(sig: Signal, pid: i32, error: Option<Seq<char>>)
    ensures
        ({
            let name = match sig {
                Signal::Term => "SIGTERM"@,
                Signal::Kill => "SIGKILL"@,
            };
            &&& has_prefix(signal_report(sig, pid, error), name)
            &&& error is None ==> signal_report(sig, pid, error) == name + " sent to PID "@
                + signed_decimal(pid as int)
            &&& error matches Some(e) ==> signal_report(sig, pid, error) == name + " failed: "@ + e
        }),
{
    let name = match sig {
        Signal::Term => "SIGTERM"@,
        Signal::Kill => "SIGKILL"@,
    };
    let r = signal_report(sig, pid, error);
    match error {
        None => {
            assert(r == name + (" sent to PID "@ + signed_decimal(pid as int)));
            assert(r.take(name.len() as int) =~= name);
        },
        Some(e) => {
            assert(r == name + (" failed: "@ + e));
            assert(r.take(name.len() as int) =~= name);
        },
    }
}

/// Two clicks on the same process row, at most 300 ms apart, select that row
/// and toggle the process details exactly once.
pub proof fn lemma_double_click_toggles_once(
    s: UiState,
    column: u16,
    row: u16,
    n: nat,
    t1: u64,
    t2: u64,
)
    requires
        s.table_top is Some,
        clicked_row(s.table_top->0, s.table_offset, row) < n,
        n <= usize::MAX,
        t1 <= t2,
        (t2 - t1) / 1_000_000 <= DOUBLE_CLICK_MS,
    ensures
        ({
            let s2 = click_state(click_state(s, column, row, n, t1), column, row, n, t2);
            &&& s2.show_proc_details == !s.show_proc_details
            &&& s2.selected == clicked_row(s.table_top->0, s.table_offset, row)
        }),
{
}

/// A single click on a process row selects it and remembers the click.
pub proof fn lemma_click_selects_row(s: UiState, column: u16, row: u16, n: nat, now: u64)
    requires
        s.table_top is Some,
        clicked_row(s.table_top->0, s.table_offset, row) < n,
        n <= usize::MAX,
        s.last_click is None,
    ensures
        click_state(s, column, row, n, now).selected == clicked_row(s.table_top->0, s.table_offset, row),
        click_state(s, column, row, n, now).show_proc_details == s.show_proc_details,
        click_state(s, column, row, n, now).last_click == Some(Click { at_ns: now, column, row }),
{
}

/// A status message is shown until a frame starts after its expiry, and not
/// after.
pub proof fn lemma_status_lifetime(s: UiState, n: nat, now: u64, top: u16)
    requires
        s.status_expire_ns is Some,
    ensures
        now > s.status_expire_ns->0 ==> frame_state(s, n, now, top).status_msg is None,
        now <= s.status_expire_ns->0 ==> frame_state(s, n, now, top).status_msg == s.status_msg,
{
}

/// Once the outcome of a signal is recorded at `t0`, every frame that starts
/// no later than two seconds after still shows it (and keeps its expiry), and
/// a frame that starts later shows none.
pub proof fn lemma_signal_status_lifetime(s: UiState, n: nat, t: u64, top: u16, t0: u64)
    requires
        t0 + STATUS_NS <= u64::MAX,
        s.status_expire_ns == Some((t0 + STATUS_NS) as u64),
    ensures
        t <= t0 + STATUS_NS ==> frame_state(s, n, t, top).status_msg == s.status_msg
            && frame_state(s, n, t, top).status_expire_ns == s.status_expire_ns,
        t > t0 + STATUS_NS ==> frame_state(s, n, t, top).status_msg is None,
{
}

/// A frame keeps the selection on a listed process and leaves it alone when
/// it already is on one.
pub proof fn lemma_frame_selection(s: UiState, n: nat, now: u64, top: u16)
    ensures
        n > 0 ==> frame_state(s, n, now, top).selected < n,
        s.selected < n ==> frame_state(s, n, now, top).selected == s.selected,
{
}

} // verus!
