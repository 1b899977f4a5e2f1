use conway::app::{App, Mode};
use conway::input::{handle, Event, KeyCode, KeyInput, KeyKind};

fn press(code: KeyCode) -> Event {
    Event::Key(KeyInput { code, kind: KeyKind::Press, ctrl: false })
}

fn ch(c: char) -> Event {
    press(KeyCode::Char(c))
}

fn live_count(app: &App) -> usize {
    let mut n = 0;
    for y in 0..app.grid.height() {
        for x in 0..app.grid.width() {
            if app.grid.get(x, y) {
                n += 1;
            }
        }
    }
    n
}

#[test]
fn new_in_edit_mode_is_blank_with_centred_cursor() {
    let app = App::new(40, 21, 12, true);
    assert_eq!((app.grid.width(), app.grid.height()), (40, 40));
    assert_eq!((app.renderer.cols(), app.renderer.char_rows()), (40, 20));
    assert_eq!(app.mode, Mode::Editing { cx: 20, cy: 20 });
    assert_eq!(live_count(&app), 0);
    assert_eq!(app.tick_count, 0);
    assert_eq!(app.fps, 12);
    assert!(!app.quit);
}

#[test]
fn new_running_scatters_patterns() {
    let app = App::new(100, 31, 12, false);
    assert_eq!(app.mode, Mode::Running);
    assert_eq!((app.grid.width(), app.grid.height()), (100, 60));
    assert!(live_count(&app) > 0);
}

#[test]
fn one_row_terminal_has_no_cell_rows() {
    let app = App::new(10, 1, 12, true);
    assert_eq!((app.grid.width(), app.grid.height()), (10, 0));
    assert_eq!(app.renderer.char_rows(), 0);
    let app = App::new(10, 0, 12, false);
    assert_eq!(app.grid.height(), 0);
}

#[test]
fn tick_counts_generations() {
    let mut app = App::new(10, 6, 12, true);
    app.tick();
    app.tick();
    assert_eq!(app.tick_count, 2);
}

#[test]
fn space_pauses_and_resumes() {
    let mut app = App::new(20, 11, 12, false);
    handle(&mut app, ch(' '));
    assert_eq!(app.mode, Mode::Paused);
    handle(&mut app, ch(' '));
    assert_eq!(app.mode, Mode::Running);
}

#[test]
fn step_only_when_paused() {
    let mut app = App::new(20, 11, 12, false);
    handle(&mut app, ch('n'));
    assert_eq!(app.tick_count, 0);
    handle(&mut app, ch(' '));
    handle(&mut app, ch('n'));
    assert_eq!(app.tick_count, 1);
}

#[test]
fn quit_keys() {
    let mut app = App::new(20, 11, 12, false);
    handle(&mut app, ch('q'));
    assert!(app.quit);
    let mut app = App::new(20, 11, 12, true);
    handle(&mut app, Event::Key(KeyInput { code: KeyCode::Char('c'), kind: KeyKind::Press, ctrl: true }));
    assert!(app.quit);
    let mut app = App::new(20, 11, 12, true);
    handle(&mut app, ch('q'));
    assert!(app.quit);
}

#[test]
fn released_keys_are_ignored() {
    let mut app = App::new(20, 11, 12, false);
    handle(&mut app, Event::Key(KeyInput { code: KeyCode::Char('q'), kind: KeyKind::Release, ctrl: false }));
    handle(&mut app, Event::Key(KeyInput { code: KeyCode::Char(' '), kind: KeyKind::Repeat, ctrl: false }));
    assert!(!app.quit);
    assert_eq!(app.mode, Mode::Running);
}

#[test]
fn speed_stays_between_one_and_sixty() {
    let mut app = App::new(20, 11, 57, false);
    handle(&mut app, ch('+'));
    assert_eq!(app.fps, 59);
    handle(&mut app, ch('='));
    assert_eq!(app.fps, 60);
    handle(&mut app, ch('+'));
    assert_eq!(app.fps, 60);
    let mut app = App::new(20, 11, 4, false);
    handle(&mut app, ch('-'));
    assert_eq!(app.fps, 2);
    handle(&mut app, ch('_'));
    assert_eq!(app.fps, 1);
    handle(&mut app, ch('-'));
    assert_eq!(app.fps, 1);
}

#[test]
fn poll_timeout_follows_speed() {
    let app = App::new(20, 11, 12, true);
    assert_eq!(app.poll_timeout_ms(), 83);
    let app = App::new(20, 11, 0, true);
    assert_eq!(app.poll_timeout_ms(), 1000);
}

#[test]
fn idle_ticks_only_when_running() {
    let mut app = App::new(20, 11, 12, false);
    app.on_idle();
    assert_eq!(app.tick_count, 1);
    handle(&mut app, ch(' '));
    app.on_idle();
    assert_eq!(app.tick_count, 1);
}

#[test]
fn reset_restarts_count_and_runs() {
    let mut app = App::new(40, 21, 12, false);
    app.tick();
    handle(&mut app, ch(' '));
    handle(&mut app, ch('r'));
    assert_eq!(app.tick_count, 0);
    assert_eq!(app.mode, Mode::Running);
    assert!(live_count(&app) > 0);
}

#[test]
fn edit_keys_keep_or_clear_the_grid() {
    let mut app = App::new(40, 21, 12, false);
    let before = live_count(&app);
    handle(&mut app, ch('e'));
    assert_eq!(app.mode, Mode::Editing { cx: 20, cy: 20 });
    assert_eq!(live_count(&app), before);
    handle(&mut app, press(KeyCode::Esc));
    assert_eq!(app.mode, Mode::Paused);
    handle(&mut app, ch('E'));
    assert_eq!(app.mode, Mode::Editing { cx: 20, cy: 20 });
    assert_eq!(live_count(&app), 0);
}

#[test]
fn cursor_moves_and_wraps() {
    let mut app = App::new(4, 3, 12, true);
    assert_eq!(app.mode, Mode::Editing { cx: 2, cy: 2 });
    handle(&mut app, press(KeyCode::Right));
    handle(&mut app, ch('l'));
    assert_eq!(app.mode, Mode::Editing { cx: 0, cy: 2 });
    handle(&mut app, ch('h'));
    assert_eq!(app.mode, Mode::Editing { cx: 3, cy: 2 });
    handle(&mut app, press(KeyCode::Left));
    assert_eq!(app.mode, Mode::Editing { cx: 2, cy: 2 });
    handle(&mut app, press(KeyCode::Down));
    handle(&mut app, ch('j'));
    assert_eq!(app.mode, Mode::Editing { cx: 2, cy: 0 });
    handle(&mut app, ch('k'));
    assert_eq!(app.mode, Mode::Editing { cx: 2, cy: 3 });
    handle(&mut app, press(KeyCode::Up));
    assert_eq!(app.mode, Mode::Editing { cx: 2, cy: 2 });
}

#[test]
fn space_toggles_cell_under_cursor_and_c_clears() {
    let mut app = App::new(10, 6, 12, true);
    handle(&mut app, ch(' '));
    assert!(app.grid.get(5, 5));
    handle(&mut app, ch('l'));
    handle(&mut app, ch(' '));
    assert!(app.grid.get(6, 5));
    handle(&mut app, ch(' '));
    assert!(!app.grid.get(6, 5));
    assert_eq!(live_count(&app), 1);
    handle(&mut app, ch('c'));
    assert_eq!(live_count(&app), 0);
    assert_eq!(app.mode, Mode::Editing { cx: 6, cy: 5 });
    handle(&mut app, press(KeyCode::Enter));
    assert_eq!(app.mode, Mode::Running);
}

#[test]
fn edit_keys_do_nothing_on_an_empty_grid() {
    let mut app = App::new(10, 1, 12, true);
    handle(&mut app, ch('q'));
    assert!(!app.quit);
    handle(&mut app, Event::Key(KeyInput { code: KeyCode::Char('c'), kind: KeyKind::Press, ctrl: true }));
    assert!(app.quit);
}

#[test]
fn resize_while_editing_recentres() {
    let mut app = App::new(10, 6, 12, true);
    handle(&mut app, ch(' '));
    handle(&mut app, Event::Resize(30, 11));
    assert_eq!((app.grid.width(), app.grid.height()), (30, 20));
    assert_eq!((app.renderer.cols(), app.renderer.char_rows()), (30, 10));
    assert_eq!(app.mode, Mode::Editing { cx: 15, cy: 10 });
    assert_eq!(live_count(&app), 0);
}

#[test]
fn resize_while_running_scatters_anew() {
    let mut app = App::new(10, 6, 12, false);
    app.tick();
    handle(&mut app, ch(' '));
    handle(&mut app, Event::Resize(60, 31));
    assert_eq!((app.grid.width(), app.grid.height()), (60, 60));
    assert_eq!(app.mode, Mode::Running);
    assert_eq!(app.tick_count, 0);
    assert!(live_count(&app) > 0);
}

#[test]
fn other_events_change_nothing() {
    let mut app = App::new(10, 6, 12, true);
    handle(&mut app, Event::Other);
    handle(&mut app, press(KeyCode::Other));
    assert_eq!(app.mode, Mode::Editing { cx: 5, cy: 5 });
    assert!(!app.quit);
}

#[test]
fn left_then_right_restores_the_cursor() {
    let mut app = App::new(8, 5, 12, true);
    for (a, b) in [
        (KeyCode::Left, KeyCode::Right),
        (KeyCode::Right, KeyCode::Left),
        (KeyCode::Up, KeyCode::Down),
        (KeyCode::Down, KeyCode::Up),
    ] {
        let before = app.mode;
        handle(&mut app, press(a));
        assert_ne!(app.mode, before);
        handle(&mut app, press(b));
        assert_eq!(app.mode, before);
    }
    app.mode = Mode::Editing { cx: 0, cy: 0 };
    handle(&mut app, press(KeyCode::Left));
    handle(&mut app, press(KeyCode::Right));
    assert_eq!(app.mode, Mode::Editing { cx: 0, cy: 0 });
}

#[test]
fn moves_at_the_largest_cursor_do_nothing_on_an_empty_grid() {
    let mut app = App::new(10, 1, 12, true);
    app.mode = Mode::Editing { cx: u16::MAX, cy: u16::MAX };
    handle(&mut app, press(KeyCode::Right));
    handle(&mut app, press(KeyCode::Down));
    handle(&mut app, ch('l'));
    assert_eq!(app.mode, Mode::Editing { cx: u16::MAX, cy: u16::MAX });
}

#[test]
fn released_moves_at_the_largest_cursor_are_ignored() {
    let mut app = App::new(10, 6, 12, true);
    app.mode = Mode::Editing { cx: u16::MAX, cy: u16::MAX };
    handle(&mut app, Event::Key(KeyInput { code: KeyCode::Right, kind: KeyKind::Release, ctrl: false }));
    handle(&mut app, Event::Key(KeyInput { code: KeyCode::Down, kind: KeyKind::Repeat, ctrl: false }));
    assert_eq!(app.mode, Mode::Editing { cx: u16::MAX, cy: u16::MAX });
}
