use quire_ui::dict::builtin::{blob, lookup, Blob};

fn le16(v: &mut Vec<u8>, x: u16) {
    v.extend_from_slice(&x.to_le_bytes());
}

fn le32(v: &mut Vec<u8>, x: u32) {
    v.extend_from_slice(&x.to_le_bytes());
}

/// A one-word dictionary: "whale", a noun, glossed "a large marine mammal".
fn one_word_blob() -> Vec<u8> {
    let entries: Vec<u8> = vec![0x05, b'w', b'h', b'a', b'l', b'e', 0x01, 0x00];
    let wblock = miniz_oxide::deflate::compress_to_vec(&entries, 6);
    let gloss = b"a large marine mammal";
    let mut records = vec![gloss.len() as u8];
    records.extend_from_slice(gloss);
    let gblock = miniz_oxide::deflate::compress_to_vec(&records, 6);
    let group_index = 64u32;
    let group_rec = 72u32;
    let wtab = 85u32;
    let gtab = 93u32;
    let vtab = 109u32;
    let wb = 117u32;
    let gb = wb + wblock.len() as u32;
    let end = gb + gblock.len() as u32;
    let mut d = Vec::new();
    d.extend_from_slice(b"QDCT");
    le16(&mut d, 1);
    le16(&mut d, 0);
    le32(&mut d, 1); // words
    le32(&mut d, 1); // glosses
    le32(&mut d, 0); // vocab
    le32(&mut d, 1); // groups
    le32(&mut d, group_index);
    le32(&mut d, wtab);
    le32(&mut d, 1); // word blocks
    le32(&mut d, gtab);
    le32(&mut d, 1); // gloss blocks
    le32(&mut d, vtab);
    le32(&mut d, 0); // vocab blocks
    le32(&mut d, 4096);
    le32(&mut d, end);
    le32(&mut d, 0);
    assert_eq!(d.len(), 64);
    le32(&mut d, group_rec);
    le32(&mut d, wtab);
    le16(&mut d, 0);
    le16(&mut d, 0);
    le32(&mut d, 0);
    d.extend_from_slice(b"whale");
    assert_eq!(d.len() as u32, wtab);
    le32(&mut d, wb);
    le32(&mut d, gb);
    le32(&mut d, 0);
    le32(&mut d, gb);
    le32(&mut d, 1);
    le32(&mut d, end);
    le32(&mut d, 0);
    le32(&mut d, end);
    assert_eq!(d.len() as u32, wb);
    d.extend_from_slice(&wblock);
    d.extend_from_slice(&gblock);
    assert_eq!(d.len() as u32, end);
    d
}

#[test]
fn a_small_blob_inflates_and_resolves() {
    let data = one_word_blob();
    let b = Blob::parse(&data).expect("parses");
    assert_eq!(b.words(), 1);
    let e = b.lookup("whale").unwrap();
    assert_eq!(e.headword, "whale");
    assert_eq!(e.text, "n. a large marine mammal");
    assert_eq!(b.lookup(" Whale ").unwrap().text, "n. a large marine mammal");
    assert!(b.lookup("zebra").is_none());
    assert!(b.lookup("aardvark").is_none());
    assert!(b.lookup("").is_none());
    assert_eq!(b.lookup_stemmed("Whales!").unwrap().headword, "whale");
}

#[test]
fn a_corrupt_block_does_not_resolve() {
    let mut data = one_word_blob();
    let n = data.len();
    // Break the word block's deflate stream.
    for i in 117..n {
        data[i] = 0xFF;
    }
    let b = Blob::parse(&data).expect("the header still parses");
    assert!(b.lookup("whale").is_none());
}

#[test]
fn foreign_bytes_are_not_a_blob() {
    assert!(Blob::parse(b"QDCX").is_none());
    let mut data = one_word_blob();
    data.push(0);
    assert!(Blob::parse(&data).is_none(), "the total length must match");
}

#[test]
fn no_dictionary_is_linked_in() {
    assert!(blob().is_none());
    assert!(lookup("whale").is_none());
}
