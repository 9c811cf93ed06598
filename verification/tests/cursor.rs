use quire_ui::cursor::{normalise, rank, rarest_word, rarity};
use quire_ui::words::WordTables;

/// A small frequency list, most common first, and a Wordle list.
fn tables() -> WordTables {
    let common = "the\nof\nand\nto\nwhale\nsea\nshepherd\nship\nwater\npedestrian\napple\npaper\ncrane\n";
    let wordle = "apple\ncrane\npaper\nslate\nwhale\n";
    WordTables::build(common, wordle).expect("the lists build")
}

#[test]
fn ranks_come_from_the_table() {
    let t = tables();
    assert_eq!(rank("the", &t), Some(0));
    assert_eq!(rank("The", &t), Some(0));
    assert_eq!(rank("THE,", &t), Some(0));
    assert!(rank("zzzzqx", &t).is_none());
    assert!(rank("", &t).is_none());
    assert_eq!(t.common_len(), 13);
    assert!((1..t.common_len()).all(|i| t.hash_at(i - 1) < t.hash_at(i)));
}

#[test]
fn possessives_and_punctuation_do_not_make_a_word_rare() {
    let t = tables();
    assert_eq!(normalise("shepherd's,"), "shepherd");
    assert_eq!(normalise("“pedestrian”"), "pedestrian");
    assert_eq!(rarity("shepherd's", &t), rarity("shepherd", &t));
    assert!(rarity("pedestrian", &t) > rarity("shepherd's", &t), "a rare real word beats a common possessive");
    assert!(rarity("Ishmael", &t) > rarity("whale", &t), "unknown names are rarer than known words");
    assert!(rarity("circumambulate", &t) > rarity("Ishmael", &t), "unknown common nouns rank above names");
    assert_eq!(rarity("1851", &t), 0);
    assert_eq!(rarity("and", &t), 0);
}

#[test]
fn rarity_scores_follow_the_rank() {
    let t = tables();
    assert_eq!(rarity("whale", &t), 5);
    assert_eq!(rarity("Ishmael", &t), 50_007);
    assert_eq!(rarity("circumambulate", &t), 100_014);
    assert_eq!(normalise("ship’s"), "ship");
}

#[test]
fn the_rarest_word_is_picked() {
    let t = tables();
    let words = vec![String::from("the"), String::from("pedestrian"), String::from("whale")];
    assert_eq!(rarest_word(&words, &t), Some(String::from("pedestrian")));
}

#[test]
fn duplicate_or_missing_lists_do_not_build() {
    assert!(WordTables::build("the\nthe\napple\n", "apple\n").is_some());
    assert!(WordTables::build("the\n", "").is_none());
}
