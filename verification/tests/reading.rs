use quire_ui::screens::{row_state, RowState};
use quire_ui::net::DownloadState;
use quire_ui::screens::highlights::Highlights;
use quire_ui::screens::labels::{info_tiles, series_line};
use quire_ui::screens::library::{LibItem, LibraryScreen, LibraryStep};
use quire_ui::screens::{
    download_status, poster_words, redraw_schedule, Drawn, SleepEvent, SleepEventAction, ReadAction, ReadingScreen, SleepFace, SleepScreen, TickAction,
};
use quire_ui::settings::SleepVariant;
use quire_ui::{Key, KeyEvent, KeyKind};

fn ev(key: Key, kind: KeyKind) -> KeyEvent {
    KeyEvent { key, kind }
}

#[test]
fn sleep_frames_repaint_by_the_minute_the_day_or_not_at_all() {
    assert_eq!(redraw_schedule(SleepVariant::Poster, false, 9, false, false), Drawn::Timed);
    assert_eq!(redraw_schedule(SleepVariant::Poster, true, 9, false, false), Drawn::Daily(9));
    assert_eq!(redraw_schedule(SleepVariant::Quote, true, 9, false, false), Drawn::Daily(9));
    assert_eq!(redraw_schedule(SleepVariant::Custom, true, 9, true, true), Drawn::Image { clock: true });
    assert_eq!(redraw_schedule(SleepVariant::Custom, true, 9, false, true), Drawn::Still);
    assert_eq!(redraw_schedule(SleepVariant::Cover, true, 9, false, false), Drawn::Still);

    let mut s = SleepScreen::new();
    assert_eq!(s.minute_tick(9), TickAction::Nothing);
    assert_eq!(s.draw(SleepVariant::Poster, 80, false, true, 9, false, false), SleepFace::Variant(SleepVariant::Poster));
    assert_eq!(s.minute_tick(9), TickAction::Nothing);
    assert_eq!(s.minute_tick(10), TickAction::Redraw);
    assert!(s.minute_tick_needs_fs());
    assert_eq!(s.draw(SleepVariant::Custom, 80, false, true, 9, true, true), SleepFace::Variant(SleepVariant::Custom));
    assert_eq!(s.minute_tick(9), TickAction::RepaintClock);
    assert!(!s.minute_tick_needs_fs());
    assert_eq!(s.draw(SleepVariant::Poster, 2, false, false, 9, false, false), SleepFace::Empty);
    assert_eq!(s.minute_tick(11), TickAction::Nothing);
    assert_eq!(s.draw(SleepVariant::Poster, 50, true, false, 9, false, false), SleepFace::Charging);
    let mut p = SleepScreen::preview(SleepVariant::Poster);
    assert_eq!(p.draw(SleepVariant::Quote, 1, true, false, 9, false, false), SleepFace::Variant(SleepVariant::Poster));
    assert_eq!(p.minute_tick(9), TickAction::Redraw);
    assert!(p.key(ev(Key::Down, KeyKind::Press)));
    assert!(!s.key(ev(Key::Down, KeyKind::Press)));
    assert!(s.key(ev(Key::Power, KeyKind::Press)));
}

#[test]
fn the_poster_shows_a_streak_a_finish_day_or_the_clock() {
    assert_eq!(poster_words(true, 12, true, "Friday", "9:41", "Monday"), ("12".to_string(), "Streak days".to_string()));
    assert_eq!(poster_words(false, 12, true, "Friday", "9:41", "Monday"), ("Friday".to_string(), "Finish by".to_string()));
    assert_eq!(poster_words(false, 12, false, "Friday", "9:41", "Monday"), ("9:41".to_string(), "Monday".to_string()));
}

#[test]
fn reading_keys_turn_pages_skim_and_open_the_layers() {
    let mut r = ReadingScreen::new();
    assert_eq!(r.key(ev(Key::Right, KeyKind::Press), true, false, false, false, false), ReadAction::NextPage);
    assert_eq!(r.key(ev(Key::Right, KeyKind::Press), true, false, false, true, false), ReadAction::EndOfBook);
    assert_eq!(r.key(ev(Key::Left, KeyKind::Press), true, false, false, false, false), ReadAction::PrevPage);
    assert_eq!(r.key(ev(Key::Down, KeyKind::Press), true, false, false, false, false), ReadAction::NextPage);
    assert_eq!(r.key(ev(Key::Down, KeyKind::Press), true, false, false, true, false), ReadAction::Ignore);
    assert_eq!(r.key(ev(Key::Down, KeyKind::Press), true, true, false, false, false), ReadAction::NextChapter);
    assert_eq!(r.key(ev(Key::Down, KeyKind::Press), true, false, true, false, false), ReadAction::PrevPage);
    assert_eq!(r.key(ev(Key::Up, KeyKind::Press), true, true, true, false, false), ReadAction::NextChapter);
    assert_eq!(r.key(ev(Key::Down, KeyKind::Long), true, false, false, false, false), ReadAction::NextChapter);
    assert_eq!(r.key(ev(Key::Up, KeyKind::Repeat), true, false, false, false, false), ReadAction::PrevChapter);
    // Skim: hold Right, release for a full refresh.
    assert_eq!(r.key(ev(Key::Right, KeyKind::Long), true, false, false, false, false), ReadAction::SkimPage);
    assert_eq!(r.key(ev(Key::Right, KeyKind::Repeat), true, false, false, false, false), ReadAction::SkimPage);
    assert_eq!(r.key(ev(Key::Right, KeyKind::Press), true, false, false, false, false), ReadAction::Ignore);
    assert_eq!(r.key(ev(Key::Right, KeyKind::Release), true, false, false, false, false), ReadAction::SkimEnd);
    assert_eq!(r.key(ev(Key::Right, KeyKind::Release), true, false, false, false, false), ReadAction::Ignore);
    assert_eq!(r.key(ev(Key::Back, KeyKind::Press), true, false, false, false, true), ReadAction::Return);
    assert_eq!(r.key(ev(Key::Back, KeyKind::Press), true, false, false, false, false), ReadAction::Home);
    assert_eq!(r.key(ev(Key::Confirm, KeyKind::Press), true, false, false, false, false), ReadAction::Compass);
    assert_eq!(r.key(ev(Key::Confirm, KeyKind::Long), true, false, false, false, false), ReadAction::WordCursor);
    // No book: the empty home.
    assert_eq!(r.key(ev(Key::Back, KeyKind::Press), false, false, false, false, false), ReadAction::Home);
    assert_eq!(r.key(ev(Key::Confirm, KeyKind::Press), false, false, false, false, false), ReadAction::Library);
    assert_eq!(r.key(ev(Key::Right, KeyKind::Press), false, false, false, false, false), ReadAction::Shop);
    assert_eq!(r.key(ev(Key::Up, KeyKind::Press), false, false, false, false, false), ReadAction::Drop);
    assert_eq!(r.key(ev(Key::Down, KeyKind::Press), false, false, false, false, false), ReadAction::Stats);
    assert_eq!(r.key(ev(Key::Down, KeyKind::Long), false, false, false, false, false), ReadAction::Ignore);
}

#[test]
fn library_keys_move_tabs_grid_and_open_books() {
    let items = vec![LibItem::Book(7, true), LibItem::Book(8, false), LibItem::Book(9, true), LibItem::Book(10, true)];
    let mut l = LibraryScreen::new();
    assert_eq!(l.key(ev(Key::Confirm, KeyKind::Press), &items, true, 0), LibraryStep::Open(7));
    assert_eq!(l.key(ev(Key::Right, KeyKind::Press), &items, true, 0), LibraryStep::Redraw);
    assert_eq!(l.focus, 1);
    assert_eq!(l.key(ev(Key::Confirm, KeyKind::Press), &items, true, 0), LibraryStep::Prepare(8));
    assert_eq!(l.key(ev(Key::Down, KeyKind::Press), &items, true, 0), LibraryStep::Redraw);
    assert_eq!(l.focus, 3);
    assert_eq!(l.key(ev(Key::Left, KeyKind::Press), &items, true, 0), LibraryStep::Redraw);
    assert_eq!(l.focus, 2);
    assert_eq!(l.key(ev(Key::Confirm, KeyKind::Long), &items, true, 0), LibraryStep::Compass(9));
    assert_eq!(l.key(ev(Key::Up, KeyKind::Press), &items, true, 0), LibraryStep::Redraw);
    assert!(l.on_tabs);
    assert_eq!(l.key(ev(Key::Left, KeyKind::Press), &items, true, 0), LibraryStep::Redraw);
    assert_eq!(l.tab, 5);
    assert_eq!(l.key(ev(Key::Confirm, KeyKind::Press), &items, true, 7), LibraryStep::Folders);
    assert_eq!(l.tab, 4);
    assert_eq!(l.key(ev(Key::Down, KeyKind::Press), &items, true, 0), LibraryStep::Redraw);
    assert!(!l.on_tabs);
    let groups = vec![LibItem::Group("Austen".into())];
    assert_eq!(l.key(ev(Key::Confirm, KeyKind::Press), &groups, false, 0), LibraryStep::Redraw);
    assert_eq!(l.group.as_deref(), Some("Austen"));
    assert_eq!(l.key(ev(Key::Back, KeyKind::Press), &groups, false, 0), LibraryStep::Redraw);
    assert_eq!(l.key(ev(Key::Back, KeyKind::Press), &groups, false, 0), LibraryStep::Pop);
    assert_eq!(l.key(ev(Key::Down, KeyKind::Press), &groups, false, 0), LibraryStep::Nav);
    assert_eq!(l.key(ev(Key::Confirm, KeyKind::Long), &groups, false, 0), LibraryStep::ToggleGrid);
}

#[test]
fn highlights_page_greedily_and_show_the_focused_block() {
    let mut h = Highlights::new();
    h.lay_out(&vec![300, 300, 500, 100, 900], 700);
    assert_eq!(h.page_blocks(0), vec![0, 1]);
    assert_eq!(h.page_blocks(1), vec![2, 3]);
    assert_eq!(h.page_blocks(2), vec![4]);
    assert_eq!(h.page_blocks(3), Vec::<usize>::new());
    assert_eq!(h.page(), 0);
    h.step(Key::Right, 5);
    h.step(Key::Right, 5);
    h.step(Key::Right, 5);
    h.lay_out(&vec![300, 300, 500, 100, 900], 700);
    assert_eq!(h.page(), 1);
    h.lay_out(&vec![], 700);
    assert_eq!(h.page_blocks(0), Vec::<usize>::new());
    assert_eq!(h.page(), 0);
}

#[test]
fn book_pages_show_series_and_tiles() {
    assert_eq!(series_line(Some(1965), Some(("Dune", 20))), "1965 · Dune · 2");
    assert_eq!(series_line(None, Some(("Discworld", 15))), "Discworld · 1.5");
    assert_eq!(series_line(None, Some(("Discworld", 0))), "Discworld");
    assert_eq!(series_line(Some(1851), None), "1851 · no series");
    let t = info_tiles(false, true, "", "", "3 h", "Fri", 42);
    assert_eq!(t[2], ("42%".to_string(), "Read".to_string()));
    assert_eq!(t[1], ("Fri".to_string(), "Finish by".to_string()));
    let t = info_tiles(false, false, "", "", "3 h", "Fri", 42);
    assert_eq!(t[0], ("—".to_string(), "Time left".to_string()));
    let t = info_tiles(true, true, "9 h", "12 May", "", "", 100);
    assert_eq!(t[1], ("12 May".to_string(), "Finished".to_string()));
    assert_eq!(t.len(), 3);
}

#[test]
fn arriving_files_report_their_status() {
    assert_eq!(download_status(&DownloadState::Queued, 0, None), "waiting");
    assert_eq!(download_status(&DownloadState::Working, 50, Some(200)), "25%");
    assert_eq!(download_status(&DownloadState::Working, 50, None), "…");
    assert_eq!(download_status(&DownloadState::Done, 0, None), "added");
    assert_eq!(download_status(&DownloadState::Failed("no space".into()), 0, None), "no space");
    assert_eq!(download_status(&DownloadState::Retrying(30), 0, None), "retry in 30 s");
}

#[test]
fn rows_are_focused_or_plain() {

    assert_eq!(row_state(true), RowState::Focused);
    assert_eq!(row_state(false), RowState::Normal);
}

#[test]
fn sleep_screens_close_on_waking_and_redraw_for_the_battery() {
    let s = SleepScreen::new();
    assert_eq!(s.event(SleepEvent::Wake), SleepEventAction::Pop);
    assert_eq!(s.event(SleepEvent::Timer), SleepEventAction::Nothing);
    assert_eq!(s.event(SleepEvent::Battery), SleepEventAction::Redraw);
    let p = SleepScreen::preview(SleepVariant::Quote);
    assert_eq!(p.event(SleepEvent::Timer), SleepEventAction::Pop);
    assert_eq!(p.event(SleepEvent::Battery), SleepEventAction::Nothing);
}
