use quire_ui::screens::apps::{app, AppsStep};
use quire_ui::screens::setup::{OtaScreen, OtaStep};
use quire_ui::net::OtaInfo;
use quire_ui::screens::apps::state_path;
use quire_ui::screens::labels::{finish_by_line, finish_short, finish_word};
use quire_ui::screens::{drop_footer, drop_url, game, wifi_qr_text, DropRequest, GamesList, SleepScreen};
use quire_ui::keys::WifiState;
use quire_ui::screens::apps::{Notes, NotesStep};
use quire_ui::screens::shop::{CalibreScreen, CalibreStep, SyncField};
use quire_ui::screens::{DropScreen, DropStep};
use quire_ui::screens::apps::{Weather, WeatherStep, WikiStep, Wikipedia};
use quire_ui::net::NetEvent;
use quire_ui::screens::{pages_per_hour, Calendar, GoalSettings, Goals, GoalsStep, Overview, Rhythm, StatsStep, YearInReview};
use quire_ui::screens::labels::{finish_when, FinishWhen};
use quire_ui::screens::{Dialog, DialogStep, Result_};
use quire_ui::keys::KeyKind;
use quire_ui::screens::sleep::quote_of_day;
use quire_ui::icons::battery_level;
use quire_ui::qr;
use quire_ui::screens::apps::{rate, AppsList, CalcStep, Calculator, CardState, Clock, ClockStep, DeckState, Study, StudyStep, due_today};
use quire_ui::screens::setup::GenericSettings;
use quire_ui::screens::shop::{BookshopHome, HomeStep, SyncScreen, SyncStep};
use quire_ui::screens::{back_one, Boot, EndOfBook, EndStep, GoTo, GoToStep, PowerMenu, PowerStep, Working};
use quire_ui::settings::SleepVariant;
use quire_ui::{Key, KeyEvent};

#[test]
fn battery_levels_go_by_quarters() {
    assert_eq!(battery_level(0), 0);
    assert_eq!(battery_level(10), 0);
    assert_eq!(battery_level(11), 1);
    assert_eq!(battery_level(37), 1);
    assert_eq!(battery_level(38), 2);
    assert_eq!(battery_level(62), 2);
    assert_eq!(battery_level(63), 3);
    assert_eq!(battery_level(87), 3);
    assert_eq!(battery_level(88), 4);
    assert_eq!(battery_level(255), 4);
}

#[test]
fn sleep_variants_have_names_in_picker_order() {
    let names: Vec<&str> = SleepVariant::all().iter().map(|v| v.name()).collect();
    assert_eq!(names, vec!["Cover", "Poster", "Quote", "Custom", "Quick resume", "Blank"]);
    assert_eq!(SleepVariant::default(), SleepVariant::Cover);
}

#[test]
fn a_new_card_is_rescheduled_by_sm2() {
    let mut c = CardState::default();
    rate(&mut c, 2, 100);
    assert_eq!(c, CardState { interval: 1, ease: 250, due: 101, reps: 1 });
    rate(&mut c, 2, 101);
    assert_eq!(c, CardState { interval: 6, ease: 250, due: 107, reps: 2 });
    rate(&mut c, 3, 107);
    assert_eq!(c, CardState { interval: 18, ease: 265, due: 125, reps: 3 });
    rate(&mut c, 1, 125);
    assert_eq!(c, CardState { interval: 21, ease: 250, due: 146, reps: 4 });
    rate(&mut c, 0, 146);
    assert_eq!(c, CardState { interval: 0, ease: 230, due: 146, reps: 0 });
}

#[test]
fn the_ease_never_falls_below_one_point_three() {
    let mut c = CardState { interval: 3, ease: 135, due: 0, reps: 5 };
    rate(&mut c, 0, 10);
    assert_eq!(c.ease, 130);
    let mut c = CardState { interval: 3000, ease: 250, due: 0, reps: 5 };
    rate(&mut c, 2, 10);
    assert_eq!(c.interval, 3650, "at most ten years");
}

#[test]
fn due_cards_are_counted() {
    let state = DeckState { cards: vec![CardState { interval: 1, ease: 250, due: 5, reps: 1 }, CardState { interval: 1, ease: 250, due: 9, reps: 1 }] };
    assert_eq!(due_today(&state, 4, 6), 3);
    assert_eq!(due_today(&state, 4, 9), 4);
    assert_eq!(due_today(&state, 1, 0), 0);
}

#[test]
fn a_study_session_rates_and_requeues() {
    let cards = vec![(String::from("un"), String::from("one")), (String::from("deux"), String::from("two"))];
    let state = DeckState { cards: vec![] };
    let mut s = Study::new("french.txt", cards, state, 10);
    assert_eq!(s.key(KeyEvent::press(Key::Confirm), 10), StudyStep::Redraw);
    assert_eq!(s.key(KeyEvent::press(Key::Left), 10), StudyStep::Redraw);
    assert_eq!(s.key(KeyEvent::press(Key::Confirm), 10), StudyStep::Redraw);
    assert_eq!(s.key(KeyEvent::press(Key::Confirm), 10), StudyStep::Redraw);
    // The card rated "again" comes back at the end.
    assert_eq!(s.key(KeyEvent::press(Key::Confirm), 10), StudyStep::Redraw);
    assert_eq!(s.key(KeyEvent::press(Key::Right), 10), StudyStep::SaveAndRedraw);
    let (name, st) = s.state();
    assert_eq!(name, "french.txt");
    assert_eq!(st.cards[0].due, 10 + 1);
    assert_eq!(st.cards[1].due, 11);
    assert_eq!(s.key(KeyEvent::press(Key::Back), 10), StudyStep::Pop);
}

#[test]
fn the_calculator_builds_an_expression() {
    let mut c = Calculator::new();
    // From "=" up to "3" and left to "2".
    c.key(KeyEvent::press(Key::Up));
    c.key(KeyEvent::press(Key::Left));
    c.key(KeyEvent::press(Key::Left));
    assert_eq!(c.key(KeyEvent::press(Key::Confirm)), CalcStep::Redraw);
    assert_eq!(c.expr(), "2");
    c.key(KeyEvent::press(Key::Right));
    c.key(KeyEvent::press(Key::Right));
    c.key(KeyEvent::press(Key::Confirm));
    assert_eq!(c.expr(), "2+");
    c.key(KeyEvent::press(Key::Left));
    c.key(KeyEvent::press(Key::Confirm));
    assert_eq!(c.expr(), "2+3");
    c.key(KeyEvent::press(Key::Down));
    c.key(KeyEvent::press(Key::Right));
    assert_eq!(c.key(KeyEvent::press(Key::Confirm)), CalcStep::Evaluate);
    c.set_result(String::from("5"));
    c.key(KeyEvent::press(Key::Left));
    c.key(KeyEvent::press(Key::Confirm));
    assert_eq!(c.expr(), "2+", "the delete key removes the last character");
    assert_eq!(c.key(KeyEvent::long(Key::Right)), CalcStep::Evaluate);
    assert_eq!(c.key(KeyEvent::press(Key::Back)), CalcStep::Pop);
}

#[test]
fn the_clock_sets_timers_and_alarms() {
    let mut c = Clock::new();
    assert_eq!(c.key(KeyEvent::press(Key::Left), 1000, 0), ClockStep::Redraw);
    assert_eq!(c.key(KeyEvent::press(Key::Confirm), 1000, 0), ClockStep::StartTicks);
    assert_eq!(c.tick(1000 + 20 * 60, 0), (true, true), "the 20-minute timer rings");
    assert_eq!(c.key(KeyEvent::press(Key::Up), 5000, 61), ClockStep::Redraw);
    assert_eq!(c.key(KeyEvent::press(Key::Confirm), 5000, 61), ClockStep::Redraw);
    // An alarm at 2:00; a tick on its first second rings.
    assert_eq!(c.tick(120 * 60, 120), (true, false));
    assert_eq!(c.key(KeyEvent::press(Key::Back), 0, 0), ClockStep::Pop);
}

#[test]
fn end_of_book_stars_cycle() {
    let mut e = EndOfBook::new();
    assert_eq!(e.key(KeyEvent::press(Key::Confirm), true), EndStep::Rate(1));
    for _ in 0..4 {
        e.key(KeyEvent::press(Key::Confirm), true);
    }
    assert_eq!(e.key(KeyEvent::press(Key::Confirm), true), EndStep::Rate(1));
    e.key(KeyEvent::press(Key::Down), true);
    assert_eq!(e.key(KeyEvent::press(Key::Confirm), true), EndStep::OpenNext);
    e.key(KeyEvent::press(Key::Down), true);
    assert_eq!(e.key(KeyEvent::press(Key::Confirm), true), EndStep::Library);
    assert_eq!(e.key(KeyEvent::press(Key::Right), false), EndStep::Library);
}

#[test]
fn go_to_moves_by_steps() {
    let mut g = GoTo::new();
    g.init(97);
    assert_eq!(g.key(KeyEvent::press(Key::Right), 3, 0), GoToStep::Redraw);
    assert_eq!(g.key(KeyEvent::long(Key::Right), 3, 0), GoToStep::Redraw);
    g.key(KeyEvent::press(Key::Down), 3, 0);
    g.key(KeyEvent::press(Key::Left), 3, 0);
    assert_eq!(g.key(KeyEvent::press(Key::Confirm), 3, 0), GoToStep::Go);
    assert_eq!(back_one(0, 3), 2);
    assert_eq!(back_one(2, 3), 1);
}

#[test]
fn the_power_menu_maps_keys() {
    let p = PowerMenu::new();
    assert_eq!(p.key(KeyEvent::press(Key::Up), true), PowerStep::WifiOn);
    assert_eq!(p.key(KeyEvent::press(Key::Up), false), PowerStep::WifiOff);
    assert_eq!(p.key(KeyEvent::long(Key::Confirm), true), PowerStep::AskPowerOff);
    assert_eq!(p.result(Some(2)), PowerStep::Restart);
    assert_eq!(p.result(None), PowerStep::Redraw);
}

#[test]
fn boot_and_working_cards_report_progress() {
    let mut b = Boot::new("Starting");
    b.ingest(3, 12);
    assert_eq!(b.permille, 250);
    assert_eq!(b.status, "Indexing 3 of 12 books");
    b.ingest(0, 0);
    assert_eq!(b.permille, 0);
    let mut w = Working::new("Downloading", "Walden", "queued");
    w.set(500, "half way");
    assert_eq!(w.permille, 500);
    assert_eq!(w.status, "half way");
}

#[test]
fn the_bookshop_home_walks_its_shelves() {
    let mut h = BookshopHome::new();
    let shelves: Vec<Vec<quire_ui::bookshop::Row>> = (0..6).map(|_| Vec::new()).collect();
    h.set_shelves(shelves);
    assert_eq!(h.key(KeyEvent::press(Key::Left)), HomeStep::Browse);
    assert_eq!(h.key(KeyEvent::press(Key::Down)), HomeStep::Redraw);
    assert_eq!(h.key(KeyEvent::press(Key::Confirm)), HomeStep::Shelf(0));
    assert_eq!(h.key(KeyEvent::press(Key::Up)), HomeStep::Redraw);
    assert_eq!(h.key(KeyEvent::press(Key::Confirm)), HomeStep::Search);
}

#[test]
fn sync_needs_wifi() {
    let mut s = SyncScreen::new();
    assert_eq!(s.key(KeyEvent::press(Key::Confirm), false), SyncStep::NeedWifi);
    assert_eq!(s.key(KeyEvent::press(Key::Confirm), true), SyncStep::SyncNow);
    s.finished(Ok(3));
    assert_eq!(s.key(KeyEvent::press(Key::Up), true), SyncStep::Redraw);
    assert_eq!(s.key(KeyEvent::press(Key::Right), true), SyncStep::EditKey);
}

#[test]
fn small_screens_start_as_described() {
    let a = AppsList::new();
    assert_eq!(a.nav.n, 9);
    let g = GenericSettings::language_time();
    let _ = g;
}

#[test]
fn qr_codes_are_sized_with_their_quiet_zone() {
    // "HELLO" fits the smallest version: 21 modules.
    assert_eq!(qr::size("HELLO", 6), Some((21 + 8) * 6));
    assert_eq!(qr::size_checked("HELLO", 6), Some(174));
    let long: String = std::iter::repeat('x').take(4000).collect();
    assert_eq!(qr::size(&long, 6), None);
    assert_eq!(qr::size_checked("HELLO", i32::MAX), None);
}

#[test]
fn the_quote_of_the_day_comes_from_the_built_in_list_without_a_card() {
    let (q, s) = quote_of_day(2, None);
    assert_eq!(q, "Call me Ishmael.");
    assert_eq!(s, "Melville · Moby-Dick");
    assert_eq!(quote_of_day(16, None), (q, s));
    let (q, _) = quote_of_day(0, Some("\n   \n"));
    assert_eq!(q, "Rather than love, than money, than fame, give me truth.");
}

#[test]
fn card_quotes_are_trimmed_lines_split_at_the_bar() {
    let text = "  To be | Hamlet  \n\n  Only text \r\n";
    let quote = |day| quote_of_day(day, Some(text));
    assert_eq!(quote(0), (String::from("To be"), String::from("Hamlet")));
    assert_eq!(quote(1), (String::from("Only text"), String::new()));
    assert_eq!(quote(2), (String::from("To be"), String::from("Hamlet")));
}

#[test]
fn a_dialog_cancels_on_back_and_hands_its_result_on_confirm() {
    let d = Dialog::new("Delete?", "This cannot be undone.", "Keep", "Delete");
    assert_eq!(d.title, "Delete?");
    assert!(matches!(d.key(KeyEvent::press(Key::Back)), DialogStep::PopWith(Result_::Cancel)));
    assert!(matches!(d.key(KeyEvent::press(Key::Confirm)), DialogStep::PopWith(Result_::Choice(1))));
    let d = d.with_result(Result_::Book(7));
    assert_eq!(d.confirm, "Delete");
    assert!(matches!(d.key(KeyEvent::press(Key::Confirm)), DialogStep::PopWith(Result_::Book(7))));
    assert!(matches!(d.key(KeyEvent::press(Key::Left)), DialogStep::Ignore));
    let held = KeyEvent { key: Key::Confirm, kind: KeyKind::Long };
    assert!(matches!(d.key(held), DialogStep::Ignore));
}

#[test]
fn finish_days_read_as_today_tomorrow_a_weekday_or_a_date() {
    assert_eq!(finish_when(100, 90), FinishWhen::Today);
    assert_eq!(finish_when(100, 100), FinishWhen::Today);
    assert_eq!(finish_when(100, 101), FinishWhen::Tomorrow);
    assert_eq!(finish_when(100, 102), FinishWhen::Weekday(102));
    assert_eq!(finish_when(100, 106), FinishWhen::Weekday(106));
    assert_eq!(finish_when(100, 107), FinishWhen::Date(107));
}

#[test]
fn the_overview_steps_its_range_round_and_opens_the_other_pages() {
    let mut o = Overview::new();
    assert_eq!(o.key(KeyEvent::press(Key::Left)), StatsStep::Redraw);
    assert_eq!(o.range, 4);
    assert_eq!(o.key(KeyEvent::press(Key::Right)), StatsStep::Redraw);
    assert_eq!(o.range, 0);
    assert_eq!(o.key(KeyEvent { key: Key::Left, kind: KeyKind::Long }), StatsStep::Rhythm);
    assert_eq!(o.key(KeyEvent { key: Key::Right, kind: KeyKind::Long }), StatsStep::Books);
    assert_eq!(o.key(KeyEvent::press(Key::Confirm)), StatsStep::Calendar);
    assert_eq!(o.key(KeyEvent::press(Key::Down)), StatsStep::Goals);
    assert_eq!(o.key(KeyEvent { key: Key::Back, kind: KeyKind::Release }), StatsStep::Ignore);
    assert_eq!(o.key(KeyEvent::press(Key::Back)), StatsStep::Pop);
    assert_eq!(o.range, 0);
}

#[test]
fn days_months_and_years_step_within_their_bounds() {
    let mut r = Rhythm::new();
    assert_eq!(r.key(KeyEvent::press(Key::Right)), StatsStep::Redraw);
    assert_eq!(r.day_offset, 0);
    r.key(KeyEvent::press(Key::Left));
    r.key(KeyEvent::press(Key::Left));
    assert_eq!(r.day_offset, 2);
    r.key(KeyEvent::press(Key::Confirm));
    assert_eq!(r.day_offset, 0);
    let mut c = Calendar::new();
    c.back = 119;
    c.key(KeyEvent::press(Key::Left));
    c.key(KeyEvent::press(Key::Left));
    assert_eq!(c.back, 120);
    let mut y = YearInReview::new();
    assert_eq!(y.key(KeyEvent::press(Key::Left)), StatsStep::Redraw);
    assert_eq!(y.year, 0);
    y.year = 2025;
    y.key(KeyEvent::press(Key::Right));
    assert_eq!(y.year, 2026);
    assert_eq!(y.key(KeyEvent { key: Key::Right, kind: KeyKind::Repeat }), StatsStep::Ignore);
}

#[test]
fn goals_move_by_steps_within_their_ranges() {
    let mut g = Goals::new();
    let mut s = GoalSettings { pages: false, page_count: 20, minutes: 5, books: 365 };
    assert_eq!(g.key(KeyEvent::press(Key::Left), &mut s), GoalsStep::Save);
    assert_eq!(s.minutes, 5);
    g.key(KeyEvent::press(Key::Confirm), &mut s);
    assert_eq!(s.minutes, 10);
    assert_eq!(g.key(KeyEvent::press(Key::Down), &mut s), GoalsStep::Redraw);
    g.key(KeyEvent::press(Key::Right), &mut s);
    assert!(s.pages);
    g.key(KeyEvent::press(Key::Up), &mut s);
    g.key(KeyEvent::press(Key::Left), &mut s);
    assert_eq!(s.page_count, 15);
    g.key(KeyEvent::press(Key::Up), &mut s);
    assert_eq!(g.focus, 2);
    g.key(KeyEvent::press(Key::Right), &mut s);
    assert_eq!(s.books, 365);
    assert_eq!(g.key(KeyEvent::press(Key::Back), &mut s), GoalsStep::Pop);
}

#[test]
fn pages_per_hour_needs_a_minute_of_reading() {
    assert_eq!(pages_per_hour(100, 59), 0);
    assert_eq!(pages_per_hour(30, 1800), 60);
    assert_eq!(pages_per_hour(7, 3600), 7);
}

#[test]
fn wikipedia_asks_for_wifi_then_looks_the_term_up_and_pages_the_summary() {
    let mut w = Wikipedia::new();
    assert_eq!(w.key(KeyEvent::press(Key::Confirm), false), WikiStep::NeedWifi);
    assert_eq!(w.key(KeyEvent::press(Key::Confirm), true), WikiStep::Keyboard);
    assert_eq!(w.key(KeyEvent::press(Key::Right), true), WikiStep::Redraw);
    assert_eq!(w.typed("   ", true), WikiStep::Redraw);
    assert_eq!(w.query(), "");
    assert_eq!(w.typed("  whale ", false), WikiStep::Redraw);
    assert_eq!(w.query(), "whale");
    assert_eq!(w.key(KeyEvent::press(Key::Right), false), WikiStep::Fetch);
    w.answered(Ok((String::from("Whale"), String::from("A large marine mammal."))));
    assert_eq!(w.key(KeyEvent::press(Key::Confirm), false), WikiStep::Keyboard);
    assert_eq!(w.key(KeyEvent::press(Key::Right), false), WikiStep::Redraw);
    assert_eq!(w.key(KeyEvent::press(Key::Left), false), WikiStep::Redraw);
    assert_eq!(w.typed("walrus", true), WikiStep::Fetch);
    w.answered(Err(String::from("timed out")));
    w.phone_text(String::from("narwhal"));
    assert_eq!(w.query(), "narwhal");
    assert_eq!(w.key(KeyEvent::press(Key::Back), true), WikiStep::Pop);
}

#[test]
fn weather_types_a_place_and_redraws_on_a_report() {
    let mut w = Weather::new();
    assert_eq!(w.key(KeyEvent::press(Key::Confirm)), WeatherStep::Keyboard);
    w.requested = true;
    assert_eq!(w.key(KeyEvent::press(Key::Right)), WeatherStep::Redraw);
    assert!(!w.requested);
    w.requested = true;
    assert_eq!(w.typed("  "), None);
    assert!(w.requested);
    assert_eq!(w.typed(" Lisbon "), Some(String::from("Lisbon")));
    assert!(!w.requested);
    assert!(w.net_event(&NetEvent::Weather));
    assert!(!w.net_event(&NetEvent::News));
    assert_eq!(w.key(KeyEvent::press(Key::Back)), WeatherStep::Pop);
}

#[test]
fn sync_settings_are_typed_per_row_and_answers_are_kept() {
    let mut s = SyncScreen::new();
    assert!(s.typed("x").is_none());
    s.key(KeyEvent::press(Key::Down), true);
    assert_eq!(s.typed("  https://sync.example  "), Some((SyncField::Url, String::from("https://sync.example"))));
    s.key(KeyEvent::press(Key::Down), true);
    assert_eq!(s.typed(" reader "), Some((SyncField::User, String::from("reader"))));
    s.key(KeyEvent::press(Key::Down), true);
    assert_eq!(s.typed(" k3y "), Some((SyncField::Key, String::from(" k3y "))));
    s.finished(Ok(12));
}

#[test]
fn the_drop_page_and_calibre_answer_their_keys() {
    let d = DropScreen::new();
    assert_eq!(d.key(KeyEvent::press(Key::Up)), DropStep::Wifi);
    assert_eq!(d.key(KeyEvent::press(Key::Down)), DropStep::Hotspot);
    assert_eq!(d.key(KeyEvent::press(Key::Back)), DropStep::Pop);
    assert_eq!(d.key(KeyEvent::press(Key::Left)), DropStep::Ignore);
    let c = CalibreScreen::new();
    assert_eq!(c.key(KeyEvent::press(Key::Back), true), CalibreStep::StopAndPop);
    assert_eq!(c.key(KeyEvent::press(Key::Confirm), false), CalibreStep::NeedWifi);
    assert_eq!(c.key(KeyEvent::press(Key::Confirm), true), CalibreStep::Ignore);
}

#[test]
fn notes_list_txt_files_sorted_and_open_edit_and_save_them() {
    let mut n = Notes::new();
    let names = vec![String::from("b.txt"), String::from("image.png"), String::from("a.txt.txt"), String::from("c.txt")];
    n.load(&names);
    assert_eq!(n.focused_file(), Some(String::from("a.txt.txt")));
    assert_eq!(n.key(KeyEvent::press(Key::Confirm)), NotesStep::Open);
    assert_eq!(n.key(KeyEvent::press(Key::Down)), NotesStep::Nav);
    assert_eq!(n.key(KeyEvent::press(Key::Right)), NotesStep::NewNote);
    assert_eq!(n.edit_title(), None);
    assert_eq!(n.saved(String::from("x")), None);
    n.show(String::from("a.txt.txt"), String::from("hello"));
    assert_eq!(n.edit_title(), Some(String::from("a")));
    assert_eq!(n.key(KeyEvent::press(Key::Right)), NotesStep::Redraw);
    assert_eq!(n.key(KeyEvent::press(Key::Confirm)), NotesStep::Edit);
    assert_eq!(n.saved(String::from("hello again")), Some((String::from("a.txt.txt"), String::from("hello again"))));
    assert_eq!(n.key(KeyEvent::press(Key::Back)), NotesStep::Redraw);
    assert_eq!(n.key(KeyEvent::press(Key::Back)), NotesStep::Pop);
    n.start_note(String::from("2025-01-01-0930.txt"));
    assert_eq!(n.edit_title(), Some(String::from("2025-01-01-0930")));
}

#[test]
fn finish_lines_read_today_tomorrow_or_the_calendar_name() {
    assert_eq!(finish_by_line(10, 9, "Thursday"), "Finish today");
    assert_eq!(finish_by_line(10, 10, "Thursday"), "Finish today");
    assert_eq!(finish_by_line(10, 11, "Thursday"), "Finish by tomorrow");
    assert_eq!(finish_by_line(10, 13, "Thursday"), "Finish by Thursday");
    assert_eq!(finish_by_line(10, 30, "2 Oct"), "Finish by 2 Oct");
    assert_eq!(finish_word(10, 11, "x"), "tomorrow");
    assert_eq!(finish_short(10, 10, "Thu"), "Today");
    assert_eq!(finish_short(10, 11, "Thu"), "Tmrw");
    assert_eq!(finish_short(10, 12, "Thu"), "Thu");
}

#[test]
fn the_drop_page_turns_wifi_on_or_raises_its_hotspot_once() {
    let mut d = DropScreen::new();
    assert_eq!(d.first_draw(true, false), Some(DropRequest::Hotspot));
    assert_eq!(d.first_draw(true, true), None);
    let mut d = DropScreen::new();
    assert_eq!(d.first_draw(true, true), Some(DropRequest::WifiOn));
    let mut d = DropScreen::new();
    assert_eq!(d.first_draw(false, true), None);
    assert_eq!(wifi_qr_text("quire", "secret12"), "WIFI:T:WPA;S:quire;P:secret12;;");
    let hot = WifiState::Hotspot { ssid: String::from("quire"), password: String::from("p"), ip: String::from("192.168.4.1") };
    assert_eq!(drop_url(&hot, "reader"), "http://192.168.4.1");
    assert_eq!(drop_url(&WifiState::Off, "reader"), "http://reader.local");
    assert_eq!(drop_footer(&hot, 3), "Hotspot: quire · 3 books added");
    assert_eq!(drop_footer(&WifiState::Off, 3), "Wi-Fi: off");
}

#[test]
fn games_are_listed_in_order_and_screens_report_their_names() {
    let g = GamesList::new();
    assert_eq!(g.focused(), Some(("Sudoku", "three difficulties, pencil marks", "80-sudoku")));
    assert_eq!(game(4).2, "80-wordle");
    assert_eq!(SleepScreen::charging().name(), "40-sleep-charging");
    assert_eq!(SleepScreen::preview(SleepVariant::Quote).name(), "44-picker-preview");
    assert_eq!(SleepScreen::new().name(), "40-sleep");
}

#[test]
fn a_decks_state_lives_under_the_flashcards_folder() {
    assert_eq!(state_path("french"), "/.quire/flashcards/french.bin");
}

#[test]
fn the_update_screen_pages_notes_and_installs_from_the_web_or_the_card() {
    let press = |key: quire_ui::Key| quire_ui::KeyEvent { key, kind: quire_ui::KeyKind::Press };
    let info = OtaInfo { version: "1.2".into(), notes: "Fixes".into(), url: "https://x/quire.bin".into(), size: 10 };
    let mut o = OtaScreen::available(info);
    assert_eq!(o.key(press(quire_ui::Key::Left)), OtaStep::Redraw);
    assert_eq!(o.key(press(quire_ui::Key::Right)), OtaStep::Redraw);
    assert_eq!(o.key(press(quire_ui::Key::Confirm)), OtaStep::Install("https://x/quire.bin".into()));
    assert_eq!(o.name(), "51-ota-working");
    assert_eq!(o.key(press(quire_ui::Key::Back)), OtaStep::Ignore);
    assert!(!o.progress(5, 10, None));
    assert!(o.progress(10, 10, Some(Ok(()))));
    assert_eq!(o.name(), "51-ota-available");
    let mut card = OtaScreen::from_card();
    assert_eq!(card.key(press(quire_ui::Key::Confirm)), OtaStep::Install("/quire/update.bin".into()));
    assert!(!card.progress(0, 0, Some(Err("bad image".into()))));
    assert_eq!(card.key(press(quire_ui::Key::Back)), OtaStep::Pop);
}

#[test]
fn the_apps_list_opens_apps_in_order_and_swaps_to_the_games() {
    let press = |key: quire_ui::Key| quire_ui::KeyEvent { key, kind: quire_ui::KeyKind::Press };
    let mut a = AppsList::new();
    assert_eq!(a.key(press(quire_ui::Key::Confirm)), AppsStep::Open("73-clock"));
    a.nav.focus = 8;
    assert_eq!(a.key(press(quire_ui::Key::Confirm)), AppsStep::Open("76-fiction"));
    assert_eq!(app(2).0, "News");
    assert_eq!(a.key(press(quire_ui::Key::Left)), AppsStep::Games);
    assert_eq!(a.key(press(quire_ui::Key::Back)), AppsStep::Pop);
    assert_eq!(a.key(press(quire_ui::Key::Down)), AppsStep::Nav);
    assert_eq!(a.key(quire_ui::KeyEvent { key: quire_ui::Key::Back, kind: quire_ui::KeyKind::Release }), AppsStep::Ignore);
}
