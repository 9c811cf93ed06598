use quire_ui::screens::apps::{add_feed, NewsStep};
use quire_ui::net::NetEvent;
use quire_ui::screens::apps::{parse_deck, ArticleMeta, News};
use quire_ui::screens::picker::{next_pack, next_rotation, Picker, PickerStep};
use quire_ui::settings::SleepVariant;
use quire_ui::screens::labels::{folder_size_text, needs_random, plural, rotate, signal_bars, size_text, storage_text};
use quire_ui::settings::ImageRotation;
use quire_ui::ui::{first_drawn, goes_to_sleep, ingest_progress, route_key, save_due, KeyRoute, ScreenStack, StackAction, SystemAsk};
use quire_ui::{Key, KeyEvent};

#[test]
fn the_bottom_screen_is_never_popped() {
    let mut s = ScreenStack::new("20-reading");
    let e = s.apply(StackAction::Pop);
    assert!(e.resume && e.draw);
    assert_eq!(s.len(), 1);
    assert_eq!(s.top(), "20-reading");
    s.apply(StackAction::Push(String::from("42-jump")));
    s.apply(StackAction::Push(String::from("50-settings")));
    s.apply(StackAction::Replace(String::from("50-about")));
    assert_eq!(s.len(), 3);
    assert_eq!(s.top(), "50-about");
    s.apply(StackAction::PopTo(String::from("42-jump")));
    assert_eq!(s.top(), "42-jump");
    s.apply(StackAction::PopTo(String::from("nowhere")));
    assert_eq!(s.len(), 1);
    let e = s.apply(StackAction::PopWith);
    assert!(e.deliver && !e.draw);
    assert_eq!(s.len(), 1);
}

#[test]
fn to_reader_leaves_the_reading_page() {
    let mut s = ScreenStack::new("01-boot");
    s.apply(StackAction::Push(String::from("70-apps")));
    s.apply(StackAction::ToReader);
    assert_eq!(s.len(), 1);
    assert_eq!(s.top(), "20-reading");
    s.apply(StackAction::Push(String::from("71-flashcards")));
    s.apply(StackAction::Open);
    assert_eq!(s.len(), 1);
    assert_eq!(s.top(), "20-reading");
    assert!(!s.apply(StackAction::Nothing).draw);
}

#[test]
fn overlays_are_drawn_over_the_screen_beneath() {
    assert_eq!(first_drawn(&vec![false, false, true, true]), 1);
    assert_eq!(first_drawn(&vec![false, true]), 0);
    assert_eq!(first_drawn(&vec![true, true]), 0);
    assert_eq!(first_drawn(&vec![false, false]), 1);
    assert_eq!(first_drawn(&vec![]), 0);
}

#[test]
fn shared_keys_are_routed_first() {
    let top = String::from("20-reading");
    assert_eq!(route_key(true, &top, KeyEvent::long(Key::Power)), KeyRoute::Unlock);
    assert_eq!(route_key(true, &top, KeyEvent::press(Key::Down)), KeyRoute::ShowLocked);
    assert_eq!(route_key(false, &top, KeyEvent::long(Key::Back)), KeyRoute::Jump);
    assert_eq!(route_key(false, &String::from("42-jump"), KeyEvent::long(Key::Back)), KeyRoute::Screen);
    assert_eq!(route_key(false, &top, KeyEvent::long(Key::Power)), KeyRoute::PowerMenu);
    assert_eq!(route_key(false, &top, KeyEvent::press(Key::Power)), KeyRoute::Sleep);
    assert_eq!(route_key(false, &String::from("41-power"), KeyEvent::press(Key::Power)), KeyRoute::Screen);
    assert_eq!(route_key(false, &top, KeyEvent::press(Key::Right)), KeyRoute::Screen);
}

#[test]
fn sleeping_and_saving_are_timed() {
    assert!(goes_to_sleep(&String::from("40-sleep"), false));
    assert!(goes_to_sleep(&String::from("40-sleep-charging"), false));
    assert!(!goes_to_sleep(&String::from("40-sleep"), true));
    assert!(!goes_to_sleep(&String::from("20-reading"), false));
    assert!(save_due(130, 100));
    assert!(!save_due(129, 100));
    assert!(!save_due(5, 100));
}

#[test]
fn ingest_progress_keeps_one_entry_per_book() {
    let mut list = vec![(1u64, 1u32, 4u32), (2, 0, 9)];
    ingest_progress(&mut list, 1, 2, 4, false);
    assert_eq!(list, vec![(2, 0, 9), (1, 2, 4)]);
    ingest_progress(&mut list, 2, 9, 9, true);
    assert_eq!(list, vec![(1, 2, 4)]);
}

#[test]
fn decks_are_read_line_by_line() {
    let cards = parse_deck("# French\nun | one\n\ndeux\ttwo\nbroken line\n  trois|  three  \r\n");
    let got: Vec<(&str, &str)> = cards.iter().map(|(a, b)| (a.as_str(), b.as_str())).collect();
    assert_eq!(got, vec![("un", "one"), ("deux", "two"), ("trois", "three")]);
    let many: String = (0..6000).map(|i| format!("q{i}|a{i}\n")).collect();
    assert_eq!(parse_deck(&many).len(), 5000);
}

#[test]
fn sizes_and_words_read_well() {
    assert_eq!(size_text(1_468_006), "1.3 MB");
    assert_eq!(size_text(1_572_864), "1.5 MB");
    assert_eq!(size_text(2_047), "1 KB");
    assert_eq!(folder_size_text(2_047), "2 KB");
    assert_eq!(storage_text(4 * 1024 * 1024 * 1024 + 700 * 1024 * 1024), "4.6 GB");
    assert_eq!(storage_text(3 * 1024 * 1024), "3 MB");
    assert_eq!(storage_text(40 * 1024), "40 KB");
    assert_eq!(signal_bars(0), "faint");
    assert_eq!(signal_bars(9), "strong");
    assert_eq!(plural(1, "entry", "entries"), "1 entry");
    assert_eq!(plural(3, "entry", "entries"), "3 entries");
}

#[test]
fn rotations_pick_an_image() {
    assert_eq!(rotate(ImageRotation::Fixed, 5, Some(3), 7, 0), 3);
    assert_eq!(rotate(ImageRotation::Fixed, 5, None, 7, 0), 0);
    assert_eq!(rotate(ImageRotation::Daily, 5, None, 7, 0), 2);
    assert_eq!(rotate(ImageRotation::EachSleep, 5, None, 7, 13), 3);
    assert!(needs_random(ImageRotation::EachSleep));
    assert!(!needs_random(ImageRotation::Daily));
}

#[test]
fn feeds_count_unread_articles() {
    let meta = |feed: &str, title: &str, read: bool| ArticleMeta {
        feed: String::from(feed),
        feed_title: String::from(title),
        title: String::from("t"),
        url: format!("{feed}/{title}/{read}"),
        published: 0,
        read,
    };
    let mut n = News::new();
    n.set_articles(vec![meta("a", "A", false), meta("b", "B", true), meta("a", "A", false), meta("a", "A", true)]);
    let rows = n.feeds(&vec![String::from("b"), String::from("c")]);
    let got: Vec<(&str, &str, usize, bool)> = rows.iter().map(|r| (r.url.as_str(), r.title.as_str(), r.unread, r.fetched)).collect();
    assert_eq!(got, vec![("a", "A", 2, true), ("b", "B", 0, true), ("c", "c", 0, false)]);
    assert_eq!(n.feed_articles("a"), vec![0, 2, 3]);
    assert_eq!(n.feed_articles("z"), Vec::<usize>::new());
}

#[test]
fn the_picker_walks_the_grid_and_the_options() {
    let mut p = Picker::new();
    assert_eq!(p.key(KeyEvent::press(Key::Left), 1), PickerStep::Redraw);
    assert_eq!(p.key(KeyEvent::press(Key::Confirm), 0), PickerStep::Choose(SleepVariant::Blank));
    assert_eq!(p.key(KeyEvent::press(Key::Up), 0), PickerStep::Redraw);
    assert_eq!(p.key(KeyEvent::press(Key::Right), 3), PickerStep::Preview(SleepVariant::Quote));
    p.key(KeyEvent::press(Key::Down), 3);
    assert_eq!(p.key(KeyEvent::press(Key::Right), 3), PickerStep::Preview(SleepVariant::Blank));
    let mut p = Picker::new();
    p.key(KeyEvent::press(Key::Down), 1);
    p.key(KeyEvent::press(Key::Down), 1);
    assert_eq!(p.key(KeyEvent::press(Key::Right), 1), PickerStep::Change);
    p.key(KeyEvent::press(Key::Up), 1);
    assert_eq!(p.key(KeyEvent::press(Key::Right), 1), PickerStep::Preview(SleepVariant::Custom));
    assert_eq!(next_rotation(ImageRotation::Daily), ImageRotation::Fixed);
    let ids = vec![String::from("birds"), String::from("maps")];
    let all = String::from("*");
    assert_eq!(next_pack(&None, &ids, &all), Some(String::from("birds")));
    assert_eq!(next_pack(&Some(String::from("birds")), &ids, &all), Some(String::from("maps")));
    assert_eq!(next_pack(&Some(String::from("maps")), &ids, &all), Some(String::from("*")));
    assert_eq!(next_pack(&Some(String::from("*")), &ids, &all), None);
    assert_eq!(next_pack(&Some(String::from("gone")), &ids, &all), None);
}

#[test]
fn news_opens_feeds_marks_articles_read_and_adds_typed_feeds() {
    let meta = |feed: &str, read: bool| ArticleMeta {
        feed: String::from(feed),
        feed_title: String::from(feed),
        title: String::from("t"),
        url: format!("{feed}/{read}"),
        published: 0,
        read,
    };
    let cfg = vec![String::from("c")];
    let mut n = News::new();
    assert_eq!(n.key(KeyEvent::press(Key::Confirm), &vec![], true), NewsStep::Ignore);
    n.set_articles(vec![meta("a", false), meta("b", true)]);
    assert_eq!(n.key(KeyEvent::press(Key::Right), &cfg, true), NewsStep::Keyboard);
    assert_eq!(n.key(KeyEvent::press(Key::Down), &cfg, true), NewsStep::Nav);
    assert_eq!(n.key(KeyEvent::press(Key::Confirm), &cfg, true), NewsStep::Redraw);
    assert_eq!(n.key(KeyEvent::press(Key::Confirm), &cfg, true), NewsStep::Read { index: 0, save: true });
    assert_eq!(n.key(KeyEvent::press(Key::Confirm), &cfg, true), NewsStep::Read { index: 0, save: false });
    assert_eq!(n.key(KeyEvent::press(Key::Back), &cfg, true), NewsStep::Redraw);
    assert_eq!(n.key(KeyEvent::press(Key::Back), &cfg, true), NewsStep::Pop);
    assert!(n.net_event(&NetEvent::News));
    assert!(!n.net_event(&NetEvent::Weather));
    let mut feeds = vec![String::from("https://a.example/rss")];
    add_feed(&mut feeds, "  https://b.example/rss ");
    add_feed(&mut feeds, "https://a.example/rss");
    add_feed(&mut feeds, "ftp://c.example");
    assert_eq!(feeds, vec![String::from("https://a.example/rss"), String::from("https://b.example/rss")]);
}

#[test]
fn sleep_and_key_lock_requests_are_remembered_until_wake_or_unlock() {
    let mut s = ScreenStack::new("20-reading");
    assert!(!s.asleep() && !s.locked());
    let e = s.apply(StackAction::System(SystemAsk::LockKeys(true)));
    assert!(e.draw);
    assert!(s.locked() && !s.asleep());
    s.apply(StackAction::System(SystemAsk::Other));
    assert!(s.locked());
    s.apply(StackAction::System(SystemAsk::LockKeys(false)));
    assert!(!s.locked());
    s.apply(StackAction::System(SystemAsk::Sleep));
    assert!(s.asleep());
    assert_eq!(s.len(), 1);
    s.wake();
    assert!(!s.asleep());
    s.apply(StackAction::Push(String::from("40-sleep")));
    assert!(s.settle());
    assert!(s.asleep());
    assert!(!s.settle());
}
