//! The drawing backend of one monitor: it takes the cell updates of a frame
//! and turns them into a short stream of terminal commands.
use vstd::prelude::*;
use crate::codepage::{
    convert_to_cctweaked, cctweaked_bytes, first_untranslatable, translatable, CCTweakedError,
};
use crate::color::{cctweaked_color, CCTweakedColor, Color};

verus! {

/// A cell position: `x` counts columns from the left, `y` rows from the top.
#[derive(Debug, Clone, Copy, PartialEq, Eq, Structural)]
pub struct Position {
    pub x: u16,
    pub y: u16,
}

/// The extent of a monitor in columns and rows.
#[derive(Debug, Clone, Copy, PartialEq, Eq, Structural)]
pub struct Size {
    pub width: u16,
    pub height: u16,
}

/// The extent of a monitor in cells and in pixels.
#[derive(Debug, Clone, Copy, PartialEq, Eq, Structural)]
pub struct WindowSize {
    pub columns_rows: Size,
    pub pixels: Size,
}

/// What one screen cell should show. Style flags other than the two colours
/// have no meaning on a monitor and are not carried.
#[derive(Debug, Clone)]
pub struct Cell {
    pub symbol: String,
    pub fg: Color,
    pub bg: Color,
}

/// The parts of the screen that a clear can address.
#[derive(Debug, Clone, Copy, PartialEq, Eq, Structural)]
pub enum ClearType {
    All,
    AfterCursor,
    BeforeCursor,
    CurrentLine,
    UntilNewLine,
}

/// A command sent to the monitor.
#[derive(Debug, Clone, PartialEq, Eq)]
pub enum CCTweakedMonitorBackendEvent {
    HideCursor,
    ShowCursor,
    ClearLine,
    ClearScreen,
    SetCursorPosition(Position),
    SetTextColor(CCTweakedColor),
    SetBackgroundColor(CCTweakedColor),
    /// Text already in the monitors' code page.
    WriteText(Vec<u8>),
}

/// A command sent to the monitor, with its text as a sequence of bytes.
pub enum WireEvent {
    HideCursor,
    ShowCursor,
    ClearLine,
    ClearScreen,
    SetCursorPosition(Position),
    SetTextColor(CCTweakedColor),
    SetBackgroundColor(CCTweakedColor),
    WriteText(Seq<u8>),
}

impl View for CCTweakedMonitorBackendEvent {
    type V = WireEvent;

    open spec fn view(&self) -> WireEvent {
        match self {
            CCTweakedMonitorBackendEvent::HideCursor => WireEvent::HideCursor,
            CCTweakedMonitorBackendEvent::ShowCursor => WireEvent::ShowCursor,
            CCTweakedMonitorBackendEvent::ClearLine => WireEvent::ClearLine,
            CCTweakedMonitorBackendEvent::ClearScreen => WireEvent::ClearScreen,
            CCTweakedMonitorBackendEvent::SetCursorPosition(p) => WireEvent::SetCursorPosition(*p),
            CCTweakedMonitorBackendEvent::SetTextColor(c) => WireEvent::SetTextColor(*c),
            CCTweakedMonitorBackendEvent::SetBackgroundColor(c) => WireEvent::SetBackgroundColor(*c),
            CCTweakedMonitorBackendEvent::WriteText(t) => WireEvent::WriteText(t@),
        }
    }
}

/// The commands of `v`, each with its text as bytes.
pub open spec fn wire_events(v: Seq<CCTweakedMonitorBackendEvent>) -> Seq<WireEvent> {
    Seq::new(v.len(), |i: int| v[i]@)
}

/// A failed backend operation.
#[derive(Debug, Clone, Copy, PartialEq, Eq, Structural)]
pub enum BackendError {
    /// A cell holds a character that the code page lacks; the rest of the
    /// frame is not drawn.
    Untranslatable(char),
    /// Monitors cannot do this.
    Unsupported,
}

/// What a backend is, as far as its users can tell.
pub struct MonitorState {
    pub size: Size,
    /// The effective foreground of the cell the colours were last set
    /// for; the monitor was told `text_color(fg)`.
    pub fg: Color,
    /// The effective background of the cell the colours were last set
    /// for; the monitor was told `background_color(bg)`.
    pub bg: Color,
    /// Code-page text of cells drawn but not yet sent.
    pub pending: Seq<u8>,
    /// Every command emitted since the backend was made.
    pub events: Seq<WireEvent>,
    /// How many of `events` have been taken out.
    pub delivered: nat,
}

/// `s` after emitting `e`.
pub open spec fn emit(s: MonitorState, e: WireEvent) -> MonitorState {
    MonitorState { events: s.events.push(e), ..s }
}

/// `s` after sending its pending text, if it holds any.
pub open spec fn flushed(s: MonitorState) -> MonitorState {
    if s.pending.len() > 0 {
        MonitorState { pending: Seq::empty(), ..emit(s, WireEvent::WriteText(s.pending)) }
    } else {
        s
    }
}

/// A cell's effective foreground: `Reset` stands for white.
pub open spec fn effective_fg(c: Color) -> Color {
    if c == Color::Reset {
        Color::White
    } else {
        c
    }
}

/// A cell's effective background: `Reset` stands for black.
pub open spec fn effective_bg(c: Color) -> Color {
    if c == Color::Reset {
        Color::Black
    } else {
        c
    }
}

/// The text colour used for a cell's foreground `c`: `Reset` and colours
/// outside the palette become white.
pub open spec fn text_color(c: Color) -> CCTweakedColor {
    match cctweaked_color(c) {
        Some(k) => k,
        None => CCTweakedColor::White,
    }
}

/// The background colour used for a cell's background `c`: `Reset` and
/// colours outside the palette become black.
pub open spec fn background_color(c: Color) -> CCTweakedColor {
    match cctweaked_color(c) {
        Some(k) => k,
        None => CCTweakedColor::Black,
    }
}

/// Cell `i` of `cells` does not continue the row of the cell before it
/// (the cell just to its left), so the cursor has to move there.
pub open spec fn starts_run(cells: Seq<(u16, u16, Cell)>, i: int) -> bool {
    i == 0 || !(cells[i].0 == cells[i - 1].0 + 1 && cells[i].1 == cells[i - 1].1)
}

/// `s` after drawing cell `i` of `cells`: move the cursor unless the cell
/// continues the run before it, change colours if the cell's effective
/// colours differ from those last set, and
/// add its text to the pending text. Pending text is sent before each
/// command.
pub open spec fn cell_step(s: MonitorState, cells: Seq<(u16, u16, Cell)>, i: int) -> MonitorState {
    let (x, y, cell) = cells[i];
    let s1 = if starts_run(cells, i) {
        emit(flushed(s), WireEvent::SetCursorPosition(Position { x, y }))
    } else {
        s
    };
    let fg = effective_fg(cell.fg);
    let bg = effective_bg(cell.bg);
    let s2 = if fg != s1.fg || bg != s1.bg {
        MonitorState {
            fg,
            bg,
            ..emit(
                emit(flushed(s1), WireEvent::SetTextColor(text_color(fg))),
                WireEvent::SetBackgroundColor(background_color(bg)),
            )
        }
    } else {
        s1
    };
    MonitorState { pending: s2.pending + cctweaked_bytes(cell.symbol@), ..s2 }
}

/// `s` after drawing the first `n` cells of `cells`.
pub open spec fn draw_cells(s: MonitorState, cells: Seq<(u16, u16, Cell)>, n: nat) -> MonitorState
    decreases n,
{
    if n == 0 {
        s
    } else {
        cell_step(draw_cells(s, cells, (n - 1) as nat), cells, n - 1)
    }
}

/// Cell `k` of `cells` is the first whose symbol the code page cannot write.
pub open spec fn first_untranslatable_cell(cells: Seq<(u16, u16, Cell)>, k: int) -> bool {
    &&& 0 <= k < cells.len()
    &&& !translatable(cells[k].2.symbol@)
    &&& forall|i: int| 0 <= i < k ==> translatable(#[trigger] cells[i].2.symbol@)
}

/// No two text commands follow each other.
pub open spec fn text_coalesced(events: Seq<WireEvent>) -> bool {
    forall|i: int| 0 <= i < events.len() - 1 ==> !(#[trigger] events[i] is WriteText && events[i + 1] is WriteText)
}

/// The last command of `events` exists and is not text.
pub open spec fn ends_with_command(events: Seq<WireEvent>) -> bool {
    events.len() > 0 && !(events.last() is WriteText)
}

/// Appending one command to both the waiting commands and the emitted ones
/// keeps the first a suffix of the second.
proof fn lemma_push_outbox(
    outbox: Seq<CCTweakedMonitorBackendEvent>,
    emitted: Seq<WireEvent>,
    e: CCTweakedMonitorBackendEvent,
)
    requires
        outbox.len() <= emitted.len(),
        wire_events(outbox) == emitted.skip(emitted.len() - outbox.len()),
    ensures
        wire_events(outbox.push(e)) == emitted.push(e@).skip(emitted.len() - outbox.len()),
{
    let start = emitted.len() - outbox.len();
    assert forall|i: int| 0 <= i < outbox.len() implies #[trigger] outbox[i]@ == emitted[start + i] by {
        assert(wire_events(outbox)[i] == emitted.skip(start)[i]);
    }
    assert(wire_events(outbox.push(e)) =~= emitted.push(e@).skip(start));
}

/// The commands that `t` holds beyond those of the earlier state `s`.
pub open spec fn emitted_since(s: MonitorState, t: MonitorState) -> Seq<WireEvent> {
    t.events.skip(s.events.len() as int)
}

/// The text command that sends the pending text of `s`, if it has any.
pub open spec fn flush_events(s: MonitorState) -> Seq<WireEvent> {
    if s.pending.len() > 0 {
        seq![WireEvent::WriteText(s.pending)]
    } else {
        seq![]
    }
}

/// Each cell of `cells` is the right-hand neighbour of the one before it.
pub open spec fn is_row_run(cells: Seq<(u16, u16, Cell)>) -> bool {
    forall|i: int|
        0 < i < cells.len() ==> #[trigger] cells[i].0 == cells[i - 1].0 + 1 && cells[i].1 == cells[
            i - 1
        ].1
}

/// Drawing one cell keeps the commands emitted before and adds: the pending
/// text and a cursor move if the cell starts a run; then, if the colours
/// change, the pending text and the two colour commands.
proof fn lemma_cell_step_events(s: MonitorState, cells: Seq<(u16, u16, Cell)>, i: int)
    requires
        0 <= i < cells.len(),
    ensures
        ({
            let t = cell_step(s, cells, i);
            let added = emitted_since(s, t);
            let s1 = if starts_run(cells, i) {
                emit(flushed(s), WireEvent::SetCursorPosition(Position { x: cells[i].0, y: cells[i].1 }))
            } else {
                s
            };
            let fg = effective_fg(cells[i].2.fg);
            let bg = effective_bg(cells[i].2.bg);
            let part1 = if starts_run(cells, i) {
                flush_events(s).push(WireEvent::SetCursorPosition(Position { x: cells[i].0, y: cells[i].1 }))
            } else {
                seq![]
            };
            let part2 = if fg != s1.fg || bg != s1.bg {
                flush_events(s1).push(WireEvent::SetTextColor(text_color(fg))).push(
                WireEvent::SetBackgroundColor(background_color(bg)),
            )
            } else {
                seq![]
            };
            &&& t.events == s.events + added
            &&& added == part1 + part2
            &&& t.fg == fg
            &&& t.bg == bg
        }),
{
    let t = cell_step(s, cells, i);
    let p = Position { x: cells[i].0, y: cells[i].1 };
    let s1 = if starts_run(cells, i) {
        emit(flushed(s), WireEvent::SetCursorPosition(p))
    } else {
        s
    };
    let fg = effective_fg(cells[i].2.fg);
    let bg = effective_bg(cells[i].2.bg);
    let part1 = if starts_run(cells, i) {
        flush_events(s).push(WireEvent::SetCursorPosition(p))
    } else {
        seq![]
    };
    let part2 = if fg != s1.fg || bg != s1.bg {
        flush_events(s1).push(WireEvent::SetTextColor(text_color(fg))).push(
                WireEvent::SetBackgroundColor(background_color(bg)),
            )
    } else {
        seq![]
    };
    assert(flushed(s).events =~= s.events + flush_events(s));
    assert(s1.events =~= s.events + part1);
    assert(flushed(s1).events =~= s1.events + flush_events(s1));
    assert(t.events =~= s1.events + part2);
    assert(t.events =~= s.events + (part1 + part2));
    assert(emitted_since(s, t) =~= part1 + part2);
}

/// The first `n` cells of a row run move the cursor once: to the first
/// cell, right after the text that was pending before.
proof fn lemma_row_run_prefix(s: MonitorState, cells: Seq<(u16, u16, Cell)>, n: nat)
    requires
        is_row_run(cells),
        0 < n <= cells.len(),
    ensures
        ({
            let out = emitted_since(s, draw_cells(s, cells, n));
            let k = flush_events(s).len() as int;
            &&& draw_cells(s, cells, n).events == s.events + out
            &&& k < out.len()
            &&& out.take(k) == flush_events(s)
            &&& out[k] == WireEvent::SetCursorPosition(Position { x: cells[0].0, y: cells[0].1 })
            &&& forall|j: int| 0 <= j < out.len() && j != k ==> !(#[trigger] out[j] is SetCursorPosition)
        }),
    decreases n,
{
    let prev = draw_cells(s, cells, (n - 1) as nat);
    lemma_cell_step_events(prev, cells, n - 1);
    let k = flush_events(s).len() as int;
    if n == 1 {
        assert(emitted_since(s, draw_cells(s, cells, n)).take(k) =~= flush_events(s));
    } else {
        lemma_row_run_prefix(s, cells, (n - 1) as nat);
        assert(!starts_run(cells, n - 1));
        let out0 = emitted_since(s, prev);
        let added = emitted_since(prev, draw_cells(s, cells, n));
        assert(emitted_since(s, draw_cells(s, cells, n)) =~= out0 + added);
        assert(emitted_since(s, draw_cells(s, cells, n)).take(k) =~= out0.take(k));
    }
}

/// A frame whose cells form one run along a row, left to right, moves the
/// cursor exactly once: to its first cell, at the start, after at most the
/// text that was pending before.
pub proof fn lemma_row_run_moves_cursor_once(s: MonitorState, cells: Seq<(u16, u16, Cell)>)
    requires
        cells.len() > 0,
        is_row_run(cells),
    ensures
        ({
            let out = emitted_since(s, draw_cells(s, cells, cells.len()));
            let k = flush_events(s).len() as int;
            &&& k < out.len()
            &&& out.take(k) == flush_events(s)
            &&& out[k] == WireEvent::SetCursorPosition(Position { x: cells[0].0, y: cells[0].1 })
            &&& forall|j: int| 0 <= j < out.len() && j != k ==> !(#[trigger] out[j] is SetCursorPosition)
        }),
{
    lemma_row_run_prefix(s, cells, cells.len());
}

/// All cells of `cells` have the same two colours.
pub open spec fn same_colors(cells: Seq<(u16, u16, Cell)>) -> bool {
    forall|i: int|
        0 <= i < cells.len() ==> #[trigger] cells[i].2.fg == cells[0].2.fg && cells[i].2.bg
            == cells[0].2.bg
}

/// Helper of `lemma_same_colors_set_once`, over the first `n` cells.
proof fn lemma_same_colors_prefix(s: MonitorState, cells: Seq<(u16, u16, Cell)>, n: nat)
    requires
        same_colors(cells),
        n <= cells.len(),
    ensures
        ({
            let t = draw_cells(s, cells, n);
            let out = emitted_since(s, t);
            &&& t.events == s.events + out
            &&& n > 0 ==> t.fg == effective_fg(cells[0].2.fg) && t.bg == effective_bg(cells[0].2.bg)
            &&& forall|j1: int, j2: int|
                0 <= j1 < j2 < out.len() ==> !(#[trigger] out[j1] is SetTextColor && #[trigger] out[j2] is SetTextColor)
            &&& forall|j1: int, j2: int|
                0 <= j1 < j2 < out.len() ==> !(#[trigger] out[j1] is SetBackgroundColor && #[trigger] out[j2] is SetBackgroundColor)
        }),
    decreases n,
{
    if n == 0 {
        assert(emitted_since(s, s) =~= Seq::<WireEvent>::empty());
    } else {
        let prev = draw_cells(s, cells, (n - 1) as nat);
        lemma_same_colors_prefix(s, cells, (n - 1) as nat);
        lemma_cell_step_events(prev, cells, n - 1);
        let out0 = emitted_since(s, prev);
        let added = emitted_since(prev, draw_cells(s, cells, n));
        let out = emitted_since(s, draw_cells(s, cells, n));
        assert(out =~= out0 + added);
        if n == 1 {
            assert(out0.len() == 0);
        } else {
            assert(cells[n - 1].2.fg == cells[0].2.fg && cells[n - 1].2.bg == cells[0].2.bg);
            assert forall|j: int| 0 <= j < added.len() implies !(#[trigger] added[j] is SetTextColor)
                && !(added[j] is SetBackgroundColor) by {}
        }
    }
}

/// A frame whose cells all have the same two colours changes the text
/// colour at most once and the background colour at most once.
pub proof fn lemma_same_colors_set_once(s: MonitorState, cells: Seq<(u16, u16, Cell)>)
    requires
        same_colors(cells),
    ensures
        ({
            let out = emitted_since(s, draw_cells(s, cells, cells.len()));
            &&& forall|j1: int, j2: int|
                0 <= j1 < j2 < out.len() ==> !(#[trigger] out[j1] is SetTextColor && #[trigger] out[j2] is SetTextColor)
            &&& forall|j1: int, j2: int|
                0 <= j1 < j2 < out.len() ==> !(#[trigger] out[j1] is SetBackgroundColor && #[trigger] out[j2] is SetBackgroundColor)
        }),
{
    lemma_same_colors_prefix(s, cells, cells.len());
}

/// A monitor's drawing backend. The commands it emits wait in the backend
/// until they are taken out for sending.
pub struct CCTweakedMonitorBackend {
    size: Size,
    fg: Color,
    bg: Color,
    current_word: Vec<u8>,
    outbox: Vec<CCTweakedMonitorBackendEvent>,
    emitted: Ghost<Seq<WireEvent>>,
}

impl View for CCTweakedMonitorBackend {
    type V = MonitorState;

    closed spec fn view(&self) -> MonitorState {
        MonitorState {
            size: self.size,
            fg: self.fg,
            bg: self.bg,
            pending: self.current_word@,
            events: self.emitted@,
            delivered: (self.emitted@.len() - self.outbox@.len()) as nat,
        }
    }
}

impl CCTweakedMonitorBackend {
    /// The waiting commands are the last ones emitted, and text is
    /// coalesced: no two text commands in a row, and pending text never
    /// follows a text command.
    pub closed spec fn wf(&self) -> bool {
        &&& self.outbox@.len() <= self.emitted@.len()
        &&& wire_events(self.outbox@) == self.emitted@.skip(
            self.emitted@.len() - self.outbox@.len(),
        )
        &&& text_coalesced(self.emitted@)
        &&& self.current_word@.len() > 0 ==> ends_with_command(self.emitted@)
    }

    /// Every command that a well-formed backend has emitted stands next to
    /// at most one text command: text runs are sent in one piece.
    pub proof fn lemma_text_coalesced(&self)
        requires
            self.wf(),
        ensures
            text_coalesced(self@.events),
            self@.pending.len() > 0 ==> ends_with_command(self@.events),
    {
    }

    /// A backend for a monitor of the given size, with white text on black.
    pub fn new(size: Size) -> (r: Self)
        ensures
            r.wf(),
            r@ == (MonitorState {
                size,
                fg: Color::White,
                bg: Color::Black,
                pending: Seq::empty(),
                events: Seq::empty(),
                delivered: 0,
            }),
    {
        let r = CCTweakedMonitorBackend {
            size,
            fg: Color::White,
            bg: Color::Black,
            current_word: Vec::new(),
            outbox: Vec::new(),
            emitted: Ghost(Seq::empty()),
        };
        assert(wire_events(r.outbox@) =~= r.emitted@.skip(0));
        r
    }

    /// Records a new size, as the monitor reported it.
    pub fn set_size(&mut self, size: Size)
        requires
            old(self).wf(),
        ensures
            final(self).wf(),
            final(self)@ == (MonitorState { size, ..old(self)@ }),
    {
        self.size = size;
    }

    /// The size last recorded.
    pub fn size(&self) -> (r: Size)
        ensures
            r == self@.size,
    {
        self.size
    }

    /// Emits a command other than text.
    fn push_event(&mut self, e: CCTweakedMonitorBackendEvent)
        requires
            old(self).wf(),
            !(e is WriteText),
        ensures
            final(self).wf(),
            final(self)@ == emit(old(self)@, e@),
    {
        let ghost old_emitted = self.emitted@;
        let ghost ev = e@;
        proof {
            lemma_push_outbox(self.outbox@, old_emitted, e);
        }
        self.outbox.push(e);
        self.emitted = Ghost(self.emitted@.push(ev));
    }

    /// Sends the pending text, if there is any.
    fn flush_word(&mut self)
        requires
            old(self).wf(),
        ensures
            final(self).wf(),
            final(self)@ == flushed(old(self)@),
    {
        if self.current_word.len() > 0 {
            let ghost old_emitted = self.emitted@;
            let ghost text = self.current_word@;
            let mut word: Vec<u8> = Vec::new();
            std::mem::swap(&mut word, &mut self.current_word);
            let e = CCTweakedMonitorBackendEvent::WriteText(word);
            proof {
                lemma_push_outbox(self.outbox@, old_emitted, e);
            }
            self.outbox.push(e);
            self.emitted = Ghost(self.emitted@.push(WireEvent::WriteText(text)));
        }
    }

    /// Sends the pending text.
    pub fn flush(&mut self)
        requires
            old(self).wf(),
        ensures
            final(self).wf(),
            final(self)@ == flushed(old(self)@),
    {
        self.flush_word();
    }

    /// Hides the cursor.
    pub fn hide_cursor(&mut self)
        requires
            old(self).wf(),
        ensures
            final(self).wf(),
            final(self)@ == emit(old(self)@, WireEvent::HideCursor),
    {
        self.push_event(CCTweakedMonitorBackendEvent::HideCursor);
    }

    /// Shows the cursor.
    pub fn show_cursor(&mut self)
        requires
            old(self).wf(),
        ensures
            final(self).wf(),
            final(self)@ == emit(old(self)@, WireEvent::ShowCursor),
    {
        self.push_event(CCTweakedMonitorBackendEvent::ShowCursor);
    }

    /// Sends the pending text, then moves the cursor to `position`.
    pub fn set_cursor_position(&mut self, position: Position)
        requires
            old(self).wf(),
        ensures
            final(self).wf(),
            final(self)@ == emit(flushed(old(self)@), WireEvent::SetCursorPosition(position)),
    {
        self.flush_word();
        self.push_event(CCTweakedMonitorBackendEvent::SetCursorPosition(position));
    }

    /// Clears the screen; pending text is dropped.
    pub fn clear(&mut self)
        requires
            old(self).wf(),
        ensures
            final(self).wf(),
            final(self)@ == (MonitorState {
                pending: Seq::empty(),
                ..emit(old(self)@, WireEvent::ClearScreen)
            }),
    {
        self.push_event(CCTweakedMonitorBackendEvent::ClearScreen);
        self.current_word.clear();
    }

    /// Clears the line of the cursor.
    pub fn clear_line(&mut self)
        requires
            old(self).wf(),
        ensures
            final(self).wf(),
            final(self)@ == emit(old(self)@, WireEvent::ClearLine),
    {
        self.push_event(CCTweakedMonitorBackendEvent::ClearLine);
    }

    /// Clears the whole screen or the cursor's line; monitors cannot clear
    /// the other regions.
    pub fn clear_region(&mut self, clear_type: ClearType) -> (r: Result<(), BackendError>)
        requires
            old(self).wf(),
        ensures
            final(self).wf(),
            clear_type == ClearType::All ==> r is Ok && final(self)@ == (MonitorState {
                pending: Seq::empty(),
                ..emit(old(self)@, WireEvent::ClearScreen)
            }),
            clear_type == ClearType::CurrentLine ==> r is Ok && final(self)@ == emit(
                old(self)@,
                WireEvent::ClearLine,
            ),
            clear_type != ClearType::All && clear_type != ClearType::CurrentLine ==> r == Err::<
                (),
                BackendError,
            >(BackendError::Unsupported) && final(self)@ == old(self)@,
    {
        match clear_type {
            ClearType::All => {
                self.clear();
                Ok(())
            },
            ClearType::CurrentLine => {
                self.clear_line();
                Ok(())
            },
            _ => Err(BackendError::Unsupported),
        }
    }

    /// Monitors do not report their cursor.
    pub fn get_cursor_position(&mut self) -> (r: Result<Position, BackendError>)
        ensures
            r == Err::<Position, BackendError>(BackendError::Unsupported),
    {
        Err(BackendError::Unsupported)
    }

    /// Monitors do not report a size in pixels; `size` gives the size in
    /// cells.
    pub fn window_size(&mut self) -> (r: Result<WindowSize, BackendError>)
        ensures
            r == Err::<WindowSize, BackendError>(BackendError::Unsupported),
    {
        Err(BackendError::Unsupported)
    }

    /// Hands out the commands emitted since the last call, oldest first.
    pub fn take_events(&mut self) -> (r: Vec<CCTweakedMonitorBackendEvent>)
        requires
            old(self).wf(),
        ensures
            final(self).wf(),
            wire_events(r@) == old(self)@.events.skip(old(self)@.delivered as int),
            final(self)@ == (MonitorState { delivered: old(self)@.events.len(), ..old(self)@ }),
    {
        let mut r: Vec<CCTweakedMonitorBackendEvent> = Vec::new();
        std::mem::swap(&mut r, &mut self.outbox);
        assert(wire_events(self.outbox@) =~= self.emitted@.skip(self.emitted@.len() as int));
        r
    }
    /// Draws cell `i` of `content`, as `cell_step` says; a cell whose symbol
    /// the code page cannot write changes nothing.
    fn draw_cell(&mut self, content: &[(u16, u16, Cell)], i: usize) -> (r: Result<(), BackendError>)
        requires
            old(self).wf(),
            i < content@.len(),
            i > 0 ==> ends_with_command(old(self)@.events),
        ensures
            final(self).wf(),
            match r {
                Ok(()) => {
                    &&& translatable(content@[i as int].2.symbol@)
                    &&& final(self)@ == cell_step(old(self)@, content@, i as int)
                    &&& ends_with_command(final(self)@.events)
                },
                Err(e) => {
                    &&& final(self)@ == old(self)@
                    &&& exists|j: int|
                        first_untranslatable(content@[i as int].2.symbol@, j) && e
                            == BackendError::Untranslatable(content@[i as int].2.symbol@[j])
                },
            },
    {
        let (x, y, cell) = &content[i];
        let mut bytes = match convert_to_cctweaked(cell.symbol.as_str()) {
            Ok(b) => b,
            Err(CCTweakedError::InvalidCharacter(c)) => {
                proof {
                    let j = choose|j: int| first_untranslatable(cell.symbol@, j) && c == cell.symbol@[j];
                    assert(!translatable(cell.symbol@)) by {
                        assert(crate::codepage::cctweaked_byte(cell.symbol@[j]) is None);
                    }
                }
                return Err(BackendError::Untranslatable(c));
            },
        };
        let moves = if i == 0 {
            true
        } else {
            let (px, py, _) = &content[i - 1];
            !(*px < *x && *x - 1 == *px && *y == *py)
        };
        if moves {
            self.flush_word();
            self.push_event(CCTweakedMonitorBackendEvent::SetCursorPosition(Position { x: *x, y: *y }));
        }
        let fg = if cell.fg == Color::Reset {
            Color::White
        } else {
            cell.fg
        };
        let bg = if cell.bg == Color::Reset {
            Color::Black
        } else {
            cell.bg
        };
        if fg != self.fg || bg != self.bg {
            let text = match CCTweakedColor::try_from(fg) {
                Ok(k) => k,
                Err(_) => CCTweakedColor::White,
            };
            let background = match CCTweakedColor::try_from(bg) {
                Ok(k) => k,
                Err(_) => CCTweakedColor::Black,
            };
            self.flush_word();
            self.push_event(CCTweakedMonitorBackendEvent::SetTextColor(text));
            self.push_event(CCTweakedMonitorBackendEvent::SetBackgroundColor(background));
            self.fg = fg;
            self.bg = bg;
        }
        self.current_word.append(&mut bytes);
        Ok(())
    }

    /// Draws a frame's cell updates in order, as `draw_cells` says. Pending
    /// text is kept for `flush`. On the first cell whose symbol the code
    /// page cannot write, the frame stops there with an error, its earlier
    /// cells drawn.
    pub fn draw(&mut self, content: &[(u16, u16, Cell)]) -> (r: Result<(), BackendError>)
        requires
            old(self).wf(),
        ensures
            final(self).wf(),
            match r {
                Ok(()) => {
                    &&& forall|i: int| 0 <= i < content@.len() ==> translatable(#[trigger] content@[i].2.symbol@)
                    &&& final(self)@ == draw_cells(old(self)@, content@, content@.len())
                },
                Err(e) => exists|k: int| {
                    &&& first_untranslatable_cell(content@, k)
                    &&& final(self)@ == draw_cells(old(self)@, content@, k as nat)
                    &&& exists|j: int|
                        first_untranslatable(content@[k].2.symbol@, j) && e
                            == BackendError::Untranslatable(content@[k].2.symbol@[j])
                },
            },
    {
        let mut i: usize = 0;
        while i < content.len()
            invariant
                self.wf(),
                i <= content@.len(),
                self@ == draw_cells(old(self)@, content@, i as nat),
                forall|j: int| 0 <= j < i ==> translatable(#[trigger] content@[j].2.symbol@),
                i > 0 ==> ends_with_command(self@.events),
            decreases content@.len() - i,
        {
            match self.draw_cell(content, i) {
                Ok(()) => {},
                Err(e) => {
                    assert(first_untranslatable_cell(content@, i as int));
                    return Err(e);
                },
            }
            i += 1;
        }
        Ok(())
    }
}

} // verus!
