use quire_ui::reader::{PageMap, Turn};

fn book() -> PageMap {
    // Three chapters: sections 0, 1-2 (a chapter in two parts) and 3.
    PageMap {
        sections: vec![(0, 1800), (0, 450), (1, 9000), (0, 2700)],
        counts: vec![Some(3), None, None, Some(4)],
        section: 2,
        page: 1,
        laid_out: 10,
    }
}

#[test]
fn pages_are_counted_or_estimated_from_characters() {
    let b = book();
    assert_eq!(b.section_pages(0), 3);
    assert_eq!(b.section_pages(1), 1);
    assert_eq!(b.section_pages(2), 10);
    assert_eq!(b.section_pages(3), 4);
    assert_eq!(b.section_pages(9), 1);
    assert_eq!(b.total_pages(), 18);
    assert_eq!(b.page_number(), 3 + 1 + 1 + 1);
}

#[test]
fn the_spine_marks_each_chapter_after_the_first() {
    let b = book();
    let m = b.spine_model();
    assert_eq!(m.total, 18);
    assert_eq!(m.chapters, vec![3, 14]);
    assert_eq!(m.current, 5);
    assert_eq!(b.pages_left_in_chapter(), 11 - 3);
}

#[test]
fn page_turns_cross_sections_and_stop_at_the_ends() {
    let mut b = book();
    assert_eq!(b.next_page(), Turn::Page(2));
    assert_eq!(b.prev_page(), Turn::Page(0));
    b.page = 9;
    assert_eq!(b.next_page(), Turn::SectionStart(3));
    b.page = 0;
    assert_eq!(b.prev_page(), Turn::SectionEnd(1));
    b.section = 3;
    b.laid_out = 4;
    b.page = 3;
    assert!(b.at_end());
    assert_eq!(b.next_page(), Turn::Stop);
    b.section = 0;
    b.page = 0;
    assert!(b.at_start());
    assert_eq!(b.prev_page(), Turn::Stop);
}

#[test]
fn chapter_jumps_go_to_chapter_starts() {
    let mut b = book();
    assert_eq!(b.chapter_first_section(2), 1);
    assert_eq!(b.next_chapter(), Some(3));
    assert_eq!(b.prev_chapter(), Some(1));
    b.section = 1;
    b.page = 0;
    assert_eq!(b.prev_chapter(), Some(0));
    b.section = 3;
    assert_eq!(b.next_chapter(), None);
    b.section = 0;
    assert_eq!(b.prev_chapter(), None);
}
