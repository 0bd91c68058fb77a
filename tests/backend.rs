use rustserver::backend::{
    BackendError, CCTweakedMonitorBackend, CCTweakedMonitorBackendEvent, Cell, ClearType, Position, Size,
};
use rustserver::color::{CCTweakedColor, Color};
use CCTweakedMonitorBackendEvent::{
    ClearLine, ClearScreen, HideCursor, SetBackgroundColor, SetCursorPosition, SetTextColor, ShowCursor, WriteText,
};

fn cell(symbol: &str, fg: Color, bg: Color) -> Cell {
    Cell { symbol: symbol.to_string(), fg, bg }
}

fn plain(x: u16, y: u16, symbol: &str) -> (u16, u16, Cell) {
    (x, y, cell(symbol, Color::White, Color::Black))
}

fn at(x: u16, y: u16) -> CCTweakedMonitorBackendEvent {
    SetCursorPosition(Position { x, y })
}

fn text(s: &str) -> CCTweakedMonitorBackendEvent {
    WriteText(s.as_bytes().to_vec())
}

fn backend() -> CCTweakedMonitorBackend {
    CCTweakedMonitorBackend::new(Size { width: 80, height: 25 })
}

#[test]
fn test_size() {
    let size = Size { width: 80, height: 25 };
    let backend = CCTweakedMonitorBackend::new(size);
    assert_eq!(backend.size(), size);
}

#[test]
fn test_flush() {
    let mut backend = backend();
    let word: Vec<(u16, u16, Cell)> = "Hello".chars().enumerate().map(|(i, c)| plain(i as u16, 0, &c.to_string())).collect();
    backend.draw(&word).unwrap();
    assert_eq!(backend.take_events(), vec![at(0, 0)]);
    backend.flush();
    let events = backend.take_events();
    assert_eq!(events.len(), 1);
    match &events[0] {
        WriteText(t) => assert_eq!(t, b"Hello"),
        _ => panic!("Expected WriteText event"),
    }
    backend.flush();
    assert!(backend.take_events().is_empty());
}

#[test]
fn set_size_records_the_new_size() {
    let mut backend = backend();
    backend.set_size(Size { width: 39, height: 19 });
    assert_eq!(backend.size(), Size { width: 39, height: 19 });
    assert!(backend.take_events().is_empty());
}

#[test]
fn trivial_frame() {
    let mut backend = backend();
    backend.set_size(Size { width: 80, height: 25 });
    backend.draw(&[plain(0, 0, "H")]).unwrap();
    backend.flush();
    assert_eq!(backend.take_events(), vec![at(0, 0), text("H")]);
}

#[test]
fn row_run() {
    let mut backend = backend();
    backend.draw(&[plain(0, 0, "H"), plain(1, 0, "i"), plain(2, 0, "!")]).unwrap();
    backend.flush();
    assert_eq!(backend.take_events(), vec![at(0, 0), text("Hi!")]);
}

#[test]
fn color_split() {
    let mut backend = backend();
    backend
        .draw(&[
            (0, 0, cell("A", Color::White, Color::Black)),
            (1, 0, cell("B", Color::Red, Color::Black)),
            (2, 0, cell("C", Color::Red, Color::Black)),
        ])
        .unwrap();
    backend.flush();
    assert_eq!(
        backend.take_events(),
        vec![
            at(0, 0),
            text("A"),
            SetTextColor(CCTweakedColor::Red),
            SetBackgroundColor(CCTweakedColor::Black),
            text("BC"),
        ]
    );
}

#[test]
fn non_adjacent_cells() {
    let mut backend = backend();
    backend.draw(&[plain(0, 0, "X"), plain(5, 0, "Y")]).unwrap();
    backend.flush();
    assert_eq!(backend.take_events(), vec![at(0, 0), text("X"), at(5, 0), text("Y")]);
}

#[test]
fn next_row_moves_the_cursor() {
    let mut backend = backend();
    backend.draw(&[plain(3, 1, "a"), plain(4, 1, "b"), plain(5, 2, "c"), plain(6, 2, "d")]).unwrap();
    backend.flush();
    assert_eq!(backend.take_events(), vec![at(3, 1), text("ab"), at(5, 2), text("cd")]);
}

#[test]
fn long_row_moves_the_cursor_once() {
    let mut backend = backend();
    let row: Vec<(u16, u16, Cell)> = (10u16..50).map(|x| plain(x, 7, "=")).collect();
    backend.draw(&row).unwrap();
    backend.flush();
    let events = backend.take_events();
    let moves: Vec<&CCTweakedMonitorBackendEvent> = events.iter().filter(|e| matches!(e, SetCursorPosition(_))).collect();
    assert_eq!(moves, vec![&at(10, 7)]);
    assert_eq!(events[0], at(10, 7));
}

#[test]
fn same_colors_set_once() {
    let mut backend = backend();
    let cells: Vec<(u16, u16, Cell)> =
        (0u16..6).map(|i| (i * 2, i, cell("o", Color::Green, Color::Blue))).collect();
    backend.draw(&cells).unwrap();
    backend.flush();
    let events = backend.take_events();
    let fg = events.iter().filter(|e| matches!(e, SetTextColor(_))).count();
    let bg = events.iter().filter(|e| matches!(e, SetBackgroundColor(_))).count();
    assert_eq!((fg, bg), (1, 1));
    assert_eq!(events[1], SetTextColor(CCTweakedColor::Green));
    assert_eq!(events[2], SetBackgroundColor(CCTweakedColor::Blue));
}

#[test]
fn text_is_never_sent_twice_in_a_row() {
    let mut backend = backend();
    backend.draw(&[plain(0, 0, "a"), plain(1, 0, "b")]).unwrap();
    backend.flush();
    backend.flush();
    backend.draw(&[plain(2, 0, "c"), (3, 0, cell("d", Color::Red, Color::Black)), plain(9, 9, "e")]).unwrap();
    backend.hide_cursor();
    backend.flush();
    let events = backend.take_events();
    for pair in events.windows(2) {
        assert!(!(matches!(pair[0], WriteText(_)) && matches!(pair[1], WriteText(_))), "{:?}", events);
    }
}

#[test]
fn reset_colors_are_white_on_black() {
    let mut backend = backend();
    backend.draw(&[(0, 0, cell("x", Color::Reset, Color::Reset))]).unwrap();
    backend.flush();
    assert_eq!(backend.take_events(), vec![at(0, 0), text("x")]);
}

#[test]
fn colors_outside_the_palette_are_coerced() {
    let mut backend = backend();
    backend
        .draw(&[
            (0, 0, cell("a", Color::Red, Color::Yellow)),
            (1, 0, cell("b", Color::LightRed, Color::Rgb(9, 9, 9))),
        ])
        .unwrap();
    backend.flush();
    assert_eq!(
        backend.take_events(),
        vec![
            at(0, 0),
            SetTextColor(CCTweakedColor::Red),
            SetBackgroundColor(CCTweakedColor::Yellow),
            text("a"),
            SetTextColor(CCTweakedColor::White),
            SetBackgroundColor(CCTweakedColor::Black),
            text("b"),
        ]
    );
}

#[test]
fn colors_persist_between_frames() {
    let mut backend = backend();
    backend.draw(&[(0, 0, cell("a", Color::Red, Color::Black))]).unwrap();
    backend.flush();
    backend.take_events();
    backend.draw(&[(0, 1, cell("b", Color::Red, Color::Black))]).unwrap();
    backend.flush();
    assert_eq!(backend.take_events(), vec![at(0, 1), text("b")]);
}

#[test]
fn glyphs_are_written_in_the_code_page() {
    let mut backend = backend();
    backend.draw(&[plain(0, 0, "\u{2588}"), plain(1, 0, "\u{e9}")]).unwrap();
    backend.flush();
    assert_eq!(backend.take_events(), vec![at(0, 0), WriteText(vec![0xa7, 0xe9])]);
}

#[test]
fn untranslatable_cell_aborts_the_frame() {
    let mut backend = backend();
    let r = backend.draw(&[plain(0, 0, "a"), plain(1, 0, "\u{2603}"), plain(2, 0, "b")]);
    assert_eq!(r, Err(BackendError::Untranslatable('\u{2603}')));
    backend.flush();
    assert_eq!(backend.take_events(), vec![at(0, 0), text("a")]);
}

#[test]
fn set_cursor_position_sends_pending_text_first() {
    let mut backend = backend();
    backend.draw(&[plain(0, 0, "a")]).unwrap();
    backend.set_cursor_position(Position { x: 4, y: 4 });
    assert_eq!(backend.take_events(), vec![at(0, 0), text("a"), at(4, 4)]);
}

#[test]
fn clear_drops_pending_text() {
    let mut backend = backend();
    backend.draw(&[plain(0, 0, "a")]).unwrap();
    backend.clear();
    backend.flush();
    assert_eq!(backend.take_events(), vec![at(0, 0), ClearScreen]);
}

#[test]
fn cursor_and_line_commands() {
    let mut backend = backend();
    backend.hide_cursor();
    backend.show_cursor();
    backend.clear_line();
    assert_eq!(backend.clear_region(ClearType::CurrentLine), Ok(()));
    assert_eq!(backend.clear_region(ClearType::All), Ok(()));
    assert_eq!(backend.take_events(), vec![HideCursor, ShowCursor, ClearLine, ClearLine, ClearScreen]);
}

#[test]
fn unsupported_operations() {
    let mut backend = backend();
    assert_eq!(backend.clear_region(ClearType::AfterCursor), Err(BackendError::Unsupported));
    assert_eq!(backend.clear_region(ClearType::BeforeCursor), Err(BackendError::Unsupported));
    assert_eq!(backend.clear_region(ClearType::UntilNewLine), Err(BackendError::Unsupported));
    assert_eq!(backend.get_cursor_position(), Err(BackendError::Unsupported));
    assert_eq!(backend.window_size(), Err(BackendError::Unsupported));
    assert!(backend.take_events().is_empty());
}

#[test]
fn events_are_taken_once() {
    let mut backend = backend();
    backend.hide_cursor();
    assert_eq!(backend.take_events(), vec![HideCursor]);
    assert!(backend.take_events().is_empty());
    backend.show_cursor();
    assert_eq!(backend.take_events(), vec![ShowCursor]);
}

#[test]
fn color_outside_the_palette_differs_from_white() {
    let mut backend = backend();
    backend.draw(&[(0, 0, cell("A", Color::LightRed, Color::Black))]).unwrap();
    backend.flush();
    assert_eq!(
        backend.take_events(),
        vec![
            at(0, 0),
            SetTextColor(CCTweakedColor::White),
            SetBackgroundColor(CCTweakedColor::Black),
            text("A"),
        ]
    );
}

#[test]
fn cells_of_different_effective_colors_are_not_merged() {
    let mut backend = backend();
    backend
        .draw(&[(0, 0, cell("A", Color::LightRed, Color::Black)), (1, 0, cell("B", Color::White, Color::Black))])
        .unwrap();
    backend.flush();
    assert_eq!(
        backend.take_events(),
        vec![
            at(0, 0),
            SetTextColor(CCTweakedColor::White),
            SetBackgroundColor(CCTweakedColor::Black),
            text("A"),
            SetTextColor(CCTweakedColor::White),
            SetBackgroundColor(CCTweakedColor::Black),
            text("B"),
        ]
    );
}

#[test]
fn reset_matches_white_on_black() {
    let mut backend = backend();
    backend
        .draw(&[(0, 0, cell("a", Color::Red, Color::Black)), (1, 0, cell("b", Color::Reset, Color::Reset)), (2, 0, plain(0, 0, "c").2)])
        .unwrap();
    backend.flush();
    assert_eq!(
        backend.take_events(),
        vec![
            at(0, 0),
            SetTextColor(CCTweakedColor::Red),
            SetBackgroundColor(CCTweakedColor::Black),
            text("a"),
            SetTextColor(CCTweakedColor::White),
            SetBackgroundColor(CCTweakedColor::Black),
            text("bc"),
        ]
    );
}
