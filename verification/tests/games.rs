use quire_ui::games::chess::{best_move, ChessScreen, Position};
use quire_ui::games::game2048::Game2048;
use quire_ui::games::minesweeper::Minesweeper;
use quire_ui::games::sudoku::{count_solutions, Sudoku};
use quire_ui::games::wordle::{answer_for, is_word, Mark, Wordle};
use quire_ui::games::{GameStep, PauseChoice, Rng};
use quire_ui::words::WordTables;
use quire_ui::{Key, KeyEvent};

fn tables() -> WordTables {
    let common = "the\nof\nand\napple\npaper\ncrane\n";
    let wordle = "apple\ncrane\npaper\nslate\n";
    WordTables::build(common, wordle).expect("the lists build")
}

#[test]
fn slides_and_merges() {
    let mut g = Game2048::new();
    g.board = [2, 2, 0, 0, 4, 0, 4, 0, 2, 4, 2, 4, 0, 0, 0, 8];
    assert!(g.slide(Key::Left));
    assert_eq!(&g.board[..4], &[4, 0, 0, 0]);
    assert_eq!(&g.board[4..8], &[8, 0, 0, 0]);
    assert_eq!(&g.board[8..12], &[2, 4, 2, 4]);
    assert_eq!(&g.board[12..16], &[8, 0, 0, 0]);
    assert_eq!(g.score, 12);
}

#[test]
fn a_slide_keeps_the_sum_of_the_tiles() {
    let mut g = Game2048::new();
    g.board = [2, 2, 4, 4, 0, 8, 8, 2, 2, 0, 2, 2, 16, 16, 0, 2];
    let before: u32 = g.board.iter().map(|v| *v as u32).sum();
    for k in [Key::Right, Key::Up, Key::Left, Key::Down] {
        g.slide(k);
        let after: u32 = g.board.iter().map(|v| *v as u32).sum();
        assert_eq!(after, before);
    }
}

#[test]
fn a_blocked_slide_does_not_move() {
    let mut g = Game2048::new();
    g.board = [2, 4, 2, 4, 4, 2, 4, 2, 2, 4, 2, 4, 4, 2, 4, 2];
    assert!(!g.slide(Key::Left));
    assert!(!g.can_move());
    assert_eq!(g.score, 0);
}

#[test]
fn generates_unique_puzzles() {
    let mut s = Sudoku::new();
    s.rng = Rng(12345);
    s.difficulty = 2;
    s.generate();
    let mut probe = s.given;
    assert_eq!(count_solutions(&mut probe, 0, 2), 1);
    assert!(s.given.iter().filter(|v| **v == 0).count() >= 40);
}

#[test]
fn an_empty_grid_has_many_solutions() {
    let mut g = [0u8; 81];
    assert_eq!(count_solutions(&mut g, 0, 3), 3);
}

#[test]
fn scoring_handles_repeats() {
    let t = tables();
    let mut w = Wordle::new();
    w.answer = String::from("apple");
    let s = w.score("paper");
    assert_eq!(s, [Mark::Present, Mark::Present, Mark::Correct, Mark::Present, Mark::Absent]);
    assert!(is_word("apple", &t));
    assert_eq!(answer_for(5, &t).len(), 5);
    assert_ne!(answer_for(5, &t), answer_for(6, &t));
}

#[test]
fn unlisted_guesses_are_not_words() {
    let t = tables();
    assert!(!is_word("zzzzz", &t));
    assert!(!is_word("Apple", &t));
    assert!(!is_word("apples", &t));
}

#[test]
fn start_position_has_twenty_moves_and_engine_captures_free_queen() {
    let p = Position::start();
    assert_eq!(p.moves().len(), 20);
    let mut q = Position::start();
    q.board = [0; 64];
    q.board[60] = 6; // white king e1
    q.board[4] = 12; // black king e8
    q.board[27] = 5; // white queen d5
    q.board[10] = 8; // black knight c7 attacks d5
    q.white_to_move = false;
    q.castle = [false; 4];
    let mut rng = Rng(1);
    let m = best_move(&q, 2, &mut rng).unwrap();
    assert_eq!(m.to, 27, "engine takes the queen");
    // Castling is generated when the path is clear.
    let mut c = Position::start();
    c.board[61] = 0;
    c.board[62] = 0;
    assert!(c.moves().iter().any(|m| m.castle));
}

#[test]
fn a_double_step_sets_en_passant() {
    let mut p = Position::start();
    let m = p.moves().into_iter().find(|m| m.from == 52 && m.to == 36).unwrap();
    p.apply(m);
    assert_eq!(p.board[36], 1);
    assert_eq!(p.board[52], 0);
    assert_eq!(p.ep, Some(44));
    assert!(!p.white_to_move);
    assert_eq!(p.halfmove, 0);
}

#[test]
fn mate_leaves_no_move() {
    // Fool's mate.
    let mut p = Position::start();
    for (from, to) in [(53u8, 45u8), (12, 28), (54, 38), (3, 39)] {
        let m = p.moves().into_iter().find(|m| m.from == from && m.to == to).unwrap();
        p.apply(m);
    }
    assert!(p.moves().is_empty());
    assert!(p.in_check(true));
    let mut rng = Rng(3);
    assert!(best_move(&p, 2, &mut rng).is_none());
}

#[test]
fn the_screen_plays_a_move_and_the_engine_answers() {
    let mut s = ChessScreen::new();
    s.start(9);
    // The cursor starts on e2: pick up the pawn, move it to e4.
    assert_eq!(s.key(KeyEvent::press(Key::Confirm)), GameStep::Redraw);
    s.key(KeyEvent::press(Key::Up));
    s.key(KeyEvent::press(Key::Up));
    assert_eq!(s.key(KeyEvent::press(Key::Confirm)), GameStep::Redraw);
    assert!(s.is_thinking());
    assert_eq!(s.key(KeyEvent::press(Key::Left)), GameStep::Ignore);
    assert_eq!(s.engine_reply(), GameStep::Redraw);
    assert!(!s.is_thinking());
    assert!(!s.game_over());
}

#[test]
fn the_first_open_is_safe() {
    for seed in [1u32, 7, 99, 12345] {
        let mut m = Minesweeper::new();
        m.start(seed);
        assert_eq!(m.key(KeyEvent::press(Key::Confirm)), GameStep::Redraw);
        assert!(!m.dead());
        assert!(m.is_open(40));
        assert!(m.is_open(41), "no mine touches the first cell, so its neighbours open");
        assert_eq!(m.mines_left(), 10);
        // Flag a cell elsewhere and back.
        m.key(KeyEvent::press(Key::Right));
        m.key(KeyEvent::press(Key::Left));
        m.key(KeyEvent::press(Key::Left));
    }
}

#[test]
fn paused_games_start_over_or_quit() {
    let mut g = Game2048::new();
    g.start(5);
    assert_eq!(g.resume(PauseChoice::Quit), GameStep::Quit);
    assert_eq!(g.resume(PauseChoice::NewGame), GameStep::Redraw);
    assert_eq!(g.score, 0);
    let mut r = Rng(0);
    assert!(r.below(10) < 10);
    assert_eq!(r.below(0), 0);
}

#[test]
fn ten_mines_are_placed_away_from_the_first_press() {
    for avoid in [0usize, 40, 80] {
        let mut m = Minesweeper::new();
        m.reset();
        m.place(avoid);
        assert_eq!(m.count(avoid), 0);
    }
}
