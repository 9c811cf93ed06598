use quire_ui::dict::card::build_qix;
use quire_ui::dict::{list, Dict, DICT_DIR};

/// The `.ifo`, `.idx` and `.dict` bytes of a StarDict dictionary of `words`.
fn build(words: &[(&str, &str)]) -> (Vec<u8>, Vec<u8>, Vec<u8>) {
    let mut idx = Vec::new();
    let mut dict = Vec::new();
    let mut sorted: Vec<(&str, &str)> = words.to_vec();
    sorted.sort_by_key(|(w, _)| w.to_lowercase());
    for (w, d) in sorted {
        idx.extend_from_slice(w.as_bytes());
        idx.push(0);
        idx.extend_from_slice(&(dict.len() as u32).to_be_bytes());
        idx.extend_from_slice(&(d.len() as u32).to_be_bytes());
        dict.extend_from_slice(d.as_bytes());
    }
    let ifo = b"StarDict's dict ifo file\nversion=2.4.2\nbookname=Test Dictionary\nwordcount=3\n".to_vec();
    (ifo, idx, dict)
}

fn test_words() -> Vec<(String, String)> {
    let mut words: Vec<(String, String)> =
        (0..500).map(|i| (format!("word{i:04}"), format!("definition of word {i}"))).collect();
    words.push((String::from("wad"), String::from("<b>wad</b> a small mass &amp; lump")));
    words.push((String::from("Zebra"), String::from("striped horse")));
    words
}

#[test]
fn lookup_by_binary_search_and_stemming() {
    let words = test_words();
    let refs: Vec<(&str, &str)> = words.iter().map(|(a, b)| (a.as_str(), b.as_str())).collect();
    let (ifo, idx, dict) = build(&refs);
    let names = vec![String::from("test.dict"), String::from("test.idx"), String::from("test.ifo")];
    assert_eq!(list(&names), vec![String::from("test")]);
    let (d, built) = Dict::open("test", &ifo, idx.clone(), dict.clone(), None);
    assert!(built);
    assert_eq!(d.name, "Test Dictionary");
    assert_eq!(d.lookup("word0250").unwrap().text, "definition of word 250");
    assert_eq!(d.lookup("word0000").unwrap().text, "definition of word 0");
    assert_eq!(d.lookup("word0499").unwrap().text, "definition of word 499");
    assert_eq!(d.lookup("zebra").unwrap().headword, "Zebra");
    assert!(d.lookup("nothing").is_none());
    let e = d.lookup_stemmed("wadded").unwrap();
    assert_eq!(e.text, "wad a small mass & lump");
    for i in (0..500).step_by(7) {
        assert_eq!(d.lookup(&format!("WORD{i:04}")).unwrap().text, format!("definition of word {i}"), "word {i}");
    }
    let qix = d.qix_bytes().clone();
    assert!(!qix.is_empty());
    // Reopen: the sampled index is reused, and a stale one is rebuilt.
    let (d2, built2) = Dict::open("test", &ifo, idx.clone(), dict.clone(), Some(qix.clone()));
    assert!(!built2);
    assert_eq!(d2.lookup("word0123").unwrap().text, "definition of word 123");
    let (d3, built3) = Dict::open("test", &ifo, idx.clone(), dict.clone(), Some(b"QIX1garbage".to_vec()));
    assert!(built3);
    assert_eq!(d3.qix_bytes(), &qix);
    assert_eq!(d3.lookup("word0499").unwrap().text, "definition of word 499");
    assert!(d3.lookup("word0500").is_none());
    assert!(d3.lookup("a").is_none());
}

#[test]
fn the_sampled_index_has_a_header_and_every_32nd_record() {
    let words = test_words();
    let refs: Vec<(&str, &str)> = words.iter().map(|(a, b)| (a.as_str(), b.as_str())).collect();
    let (_, idx, _) = build(&refs);
    let q = build_qix(&idx, false);
    assert_eq!(&q[..4], b"QIX1");
    assert_eq!(u64::from_le_bytes(q[4..12].try_into().unwrap()), idx.len() as u64);
    assert_eq!(u32::from_le_bytes(q[12..16].try_into().unwrap()), 32);
    // 502 records: samples at records 0, 32, ..., 480.
    assert_eq!((q.len() - 16) / 8, 16);
    assert_eq!(u64::from_le_bytes(q[16..24].try_into().unwrap()), 0);
    // "wad" sorts first (12 bytes), then word0000 onwards (17 bytes each): record 32 is
    // word0031.
    let rec = 17u64;
    assert_eq!(u64::from_le_bytes(q[24..32].try_into().unwrap()), 12 + 31 * rec);
}

#[test]
fn an_empty_index_has_no_samples_and_finds_nothing() {
    let (d, built) = Dict::open("empty", b"", Vec::new(), Vec::new(), None);
    assert!(built);
    assert_eq!(d.name, "empty");
    assert_eq!(d.qix_bytes().len(), 16);
    assert!(d.lookup("anything").is_none());
    assert!(d.lookup_stemmed("anything").is_none());
}

#[test]
fn wide_offsets_are_read_as_64_bits() {
    let mut idx = Vec::new();
    idx.extend_from_slice(b"gnu");
    idx.push(0);
    idx.extend_from_slice(&3u64.to_be_bytes());
    idx.extend_from_slice(&4u32.to_be_bytes());
    let dict = b"xxxa gnuyyy".to_vec();
    let ifo = b"bookname=  Wide  \r\nidxoffsetbits=64\r\n".to_vec();
    let (d, _) = Dict::open("wide", &ifo, idx, dict, None);
    assert_eq!(d.name, "Wide");
    let e = d.lookup("  GNU ").unwrap();
    assert_eq!(e.headword, "gnu");
    assert_eq!(e.text, "a gn");
}

#[test]
fn an_offset_past_the_end_finds_nothing_and_sizes_are_cut() {
    let mut idx = Vec::new();
    idx.extend_from_slice(b"far");
    idx.push(0);
    idx.extend_from_slice(&100u32.to_be_bytes());
    idx.extend_from_slice(&4u32.to_be_bytes());
    idx.extend_from_slice(b"near");
    idx.push(0);
    idx.extend_from_slice(&2u32.to_be_bytes());
    idx.extend_from_slice(&1000u32.to_be_bytes());
    let dict = b"abcdef".to_vec();
    let (d, _) = Dict::open("t", b"", idx, dict, None);
    assert!(d.lookup("far").is_none());
    assert_eq!(d.lookup("near").unwrap().text, "cdef");
}

#[test]
fn only_settings_files_are_listed_in_order() {
    let names = vec![
        String::from("b.ifo"),
        String::from("a.idx"),
        String::from("c.ifo"),
        String::from("a.ifo"),
        String::from("notes.txt"),
    ];
    assert_eq!(list(&names), vec![String::from("a"), String::from("b"), String::from("c")]);
    assert_eq!(DICT_DIR, "/dict");
}
