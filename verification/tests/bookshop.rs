use quire_ui::keys::{Key, KeyEvent, KeyKind};
use quire_ui::screens::shop::{get_book, Browse, BrowseStep, Downloads, DownloadsStep, BookPage, BookStep, GetStep, Search, SearchStep, ShelfList, ShelfStep};
use quire_ui::bookshop::{encode, fmt_mb, hours_text, seed, src_glyph, CatalogFile};
use quire_ui::screens::shop::book_state_line;
use quire_ui::net::DownloadState;

#[test]
fn catalog_roundtrips_through_the_fixed_record_file() {
    let cat = seed();
    let bytes = encode(&cat);
    let file = CatalogFile::parse(bytes).expect("parses");
    assert_eq!(file.count(), cat.books.len() as u32);
    // Records are in rank order and decode back to the book.
    let first = file.book(0).unwrap();
    assert_eq!(first.id, "pg1342");
    assert_eq!(first.blurb, cat.books[0].blurb);
    assert_eq!(first.subjects, cat.books[0].subjects);
    assert_eq!(first.url, cat.books[0].url);
    let row = file.row(3).unwrap();
    assert_eq!(row.title, "Moby-Dick");
    assert_eq!(row.author, "Herman Melville");
    assert_eq!(row.hours10, 180);
    assert!(file.row(999).is_none());
    // Shelves and groups.
    assert_eq!(file.shelf(0).len(), 12, "start here (all seed books are in the collection, capped)");
    assert_eq!(file.shelf(1)[0], 0);
    let authors = file.groups(1);
    assert!(authors.iter().any(|g| g.name == "Charles Dickens" && g.count == 2));
    let dickens = authors.iter().find(|g| g.name == "Charles Dickens").unwrap();
    let members = file.members(dickens);
    assert_eq!(members.len(), 2);
    assert!(members.iter().all(|i| file.row(*i).unwrap().author == "Charles Dickens"));
    let langs = file.groups(3);
    assert_eq!(langs.len(), 1);
    assert_eq!(langs[0].name, "EN");
    // Search and id lookup.
    let hits = file.search("dickens");
    assert_eq!(hits.len(), 2);
    assert!(file.search("MYSTERY holmes").contains(&1));
    assert!(file.search("zzzz").is_empty());
    let found = file.find_ids(&[String::from("pg205"), String::from("nope"), String::from("pg84")]);
    assert_eq!(found, vec![2, 4]);
}

#[test]
fn long_fields_are_cut_at_character_boundaries() {
    let mut cat = seed();
    cat.books[0].title = "Ééééééééééééééééééééééééééééééééééééééééééééééééééé long".into();
    let file = CatalogFile::parse(encode(&cat)).unwrap();
    let row = file.row(0).unwrap();
    assert!(row.title.len() <= 56);
    assert!(row.title.starts_with("Éé"));
    // The full title survives in the strings blob.
    assert_eq!(file.book(0).unwrap().title, cat.books[0].title);
}

#[test]
fn sizes_read_as_megabytes() {
    assert_eq!(fmt_mb(0), "—");
    assert_eq!(fmt_mb(720_000), "0.7 MB");
    assert_eq!(fmt_mb(1_400_000), "1.4 MB");
    assert_eq!(fmt_mb(33_000_000), "33 MB");
}

#[test]
fn records_come_out_in_rank_order() {
    let mut cat = seed();
    // Shuffle the ranks: the encoding sorts by rank, keeping ties in order.
    cat.books[0].rank = 50;
    cat.books[5].rank = 0;
    let file = CatalogFile::parse(encode(&cat)).unwrap();
    assert_eq!(file.count(), cat.books.len() as u32);
    let mut last = 0;
    for i in 0..file.count() {
        let b = file.book(i).unwrap();
        assert!(b.rank >= last);
        last = b.rank;
    }
    assert_eq!(file.book(0).unwrap().id, cat.books[5].id);
    assert_eq!(file.book(file.count() - 1).unwrap().id, "pg1342");
}

#[test]
fn garbage_does_not_parse() {
    assert!(CatalogFile::parse(Vec::new()).is_none());
    assert!(CatalogFile::parse(b"QCAT".to_vec()).is_none());
    assert!(CatalogFile::parse(vec![0u8; 64]).is_none());
}

#[test]
fn hours_and_sources_read_as_text() {
    assert_eq!(hours_text(60), "6 h");
    assert_eq!(hours_text(5), "30 min");
    assert_eq!(src_glyph(0), "PG");
    assert_eq!(src_glyph(1), "SE");
    assert_eq!(src_glyph(2), "CC");
}

#[test]
fn the_book_page_offers_reading_downloading_or_getting() {
    let line = |s: Option<DownloadState>, lib: bool, wifi: bool| {
        let (a, b) = book_state_line(&s, lib, wifi);
        (a, b)
    };
    assert_eq!(line(Some(DownloadState::Working), true, false), ("In your library".to_string(), "Read".to_string()));
    assert_eq!(line(Some(DownloadState::Queued), false, true), ("Downloading".to_string(), String::new()));
    assert_eq!(
        line(Some(DownloadState::Retrying(4)), false, true),
        ("Gutenberg is limiting requests, retrying".to_string(), String::new())
    );
    assert_eq!(line(Some(DownloadState::Failed("x".into())), false, false), ("Couldn't download".to_string(), "Retry".to_string()));
    assert_eq!(line(None, false, false), ("Wi-Fi off · Connect to get this book".to_string(), "Wi-Fi".to_string()));
    assert_eq!(line(Some(DownloadState::Done), false, true), ("Get".to_string(), "Get".to_string()));
}

#[test]
fn shelf_and_book_page_keys_open_save_and_get_books() {
    let press = |key: Key| KeyEvent { key, kind: KeyKind::Press };
    let shelf = ShelfList::new("Start here", vec![7, 9]);
    assert_eq!(shelf.key(press(Key::Confirm)), ShelfStep::Open(7));
    assert_eq!(shelf.key(press(Key::Back)), ShelfStep::Pop);
    assert_eq!(shelf.key(press(Key::Down)), ShelfStep::Nav);
    assert_eq!(shelf.key(KeyEvent { key: Key::Confirm, kind: KeyKind::Release }), ShelfStep::Ignore);
    let empty = ShelfList::new("Empty", vec![]);
    assert_eq!(empty.key(press(Key::Confirm)), ShelfStep::Ignore);
    let mut page = BookPage::new(7);
    assert_eq!(page.key(press(Key::Confirm)), BookStep::Ignore);
    assert_eq!(page.key(press(Key::Back)), BookStep::Pop);
    page.set_saved(true);
    let book = quire_ui::bookshop::seed().books[0].clone();
    page.show(book, false);
    assert_eq!(page.key(press(Key::Left)), BookStep::ToggleSaved);
    assert_eq!(page.key(press(Key::Right)), BookStep::Redraw);
    assert_eq!(page.key(press(Key::Down)), BookStep::SearchAuthor);
    assert_eq!(page.key(press(Key::Confirm)), BookStep::Get);
    assert_eq!(page.key(press(Key::Up)), BookStep::Ignore);
    assert_eq!(get_book(Some(12), false), GetStep::Open(12));
    assert_eq!(get_book(None, false), GetStep::AskWifi);
    assert_eq!(get_book(None, true), GetStep::Fetch);
}

#[test]
fn search_keys_edit_the_query_or_open_a_result() {
    let press = |key: Key| KeyEvent { key, kind: KeyKind::Press };
    let mut s = Search::with_query("dickens");
    assert_eq!(s.key(press(Key::Back)), SearchStep::Pop);
    assert_eq!(s.key(press(Key::Right)), SearchStep::EditQuery);
    assert_eq!(s.key(KeyEvent { key: Key::Confirm, kind: KeyKind::Long }), SearchStep::EditQuery);
    assert_eq!(s.key(press(Key::Confirm)), SearchStep::Open);
    assert_eq!(s.key(press(Key::Down)), SearchStep::Nav);
    assert_eq!(s.key(KeyEvent { key: Key::Back, kind: KeyKind::Release }), SearchStep::Ignore);
    assert_eq!(s.focused_result(), None);
    s.set_query(String::from("austen"));
    assert_eq!(s.focused_result(), None);
}

#[test]
fn download_keys_switch_tabs_retry_cancel_and_fetch_saved_books() {
    let press = |key: Key| KeyEvent { key, kind: KeyKind::Press };
    let mut d = Downloads::new();
    assert_eq!(d.key(press(Key::Confirm), true), DownloadsStep::Shop);
    assert_eq!(d.key(press(Key::Confirm), false), DownloadsStep::Retry(0));
    assert_eq!(d.key(press(Key::Right), false), DownloadsStep::Cancel(0));
    assert_eq!(d.key(press(Key::Right), true), DownloadsStep::Ignore);
    assert_eq!(d.key(press(Key::Left), true), DownloadsStep::Redraw);
    assert_eq!(d.key(press(Key::Confirm), true), DownloadsStep::OpenSaved(0));
    assert_eq!(d.key(press(Key::Right), true), DownloadsStep::FetchSaved);
    assert_eq!(d.key(press(Key::Confirm), true), DownloadsStep::Shop);
    assert_eq!(d.key(press(Key::Down), true), DownloadsStep::Nav);
    assert_eq!(d.key(press(Key::Back), true), DownloadsStep::Pop);
    assert_eq!(d.key(KeyEvent { key: Key::Back, kind: KeyKind::Release }, true), DownloadsStep::Ignore);
}

#[test]
fn browse_walks_kinds_groups_and_books() {
    let press = |key: Key| KeyEvent { key, kind: KeyKind::Press };
    let file = CatalogFile::parse(encode(&seed())).expect("parses");
    let mut b = Browse::new();
    assert_eq!(b.key(press(Key::Back), &file), BrowseStep::Pop);
    // Kind 0 (subjects) opens its groups, the first group its books.
    assert_eq!(b.key(press(Key::Confirm), &file), BrowseStep::Redraw);
    assert_eq!(b.key(press(Key::Confirm), &file), BrowseStep::Redraw);
    let first = file.members(&file.groups(0)[0]);
    assert_eq!(b.key(press(Key::Confirm), &file), BrowseStep::Open(first[0]));
    assert_eq!(b.key(press(Key::Down), &file), BrowseStep::Nav);
    assert_eq!(b.key(press(Key::Back), &file), BrowseStep::Redraw);
    assert_eq!(b.key(press(Key::Back), &file), BrowseStep::Redraw);
    assert_eq!(b.key(press(Key::Back), &file), BrowseStep::Pop);
    assert_eq!(b.key(KeyEvent { key: Key::Back, kind: KeyKind::Release }, &file), BrowseStep::Ignore);
}
