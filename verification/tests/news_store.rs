use quire_ui::screens::apps::{store_articles, Article, ArticleMeta, MAX_ARTICLES};

fn article(n: u32) -> Article {
    Article {
        feed: String::from("https://example.org/feed"),
        feed_title: String::from("Example"),
        title: format!("Article {n}"),
        url: format!("https://example.org/{n}"),
        published: 1_000_000 + n,
        text: format!("Body of article {n}.\n\nSecond paragraph."),
        read: false,
    }
}

#[test]
fn bodies_live_in_their_own_files_and_the_index_stays_bounded() {
    let first: Vec<Article> = (0..5).map(article).collect();
    let s = store_articles(Vec::new(), &first);
    let mut index: Vec<ArticleMeta> = s.index;
    assert_eq!(index.len(), 5);
    assert_eq!(index[0].title, "Article 4", "newest first");
    assert_eq!(s.write, vec![0, 1, 2, 3, 4]);
    assert!(s.dropped.is_empty());
    // Marking read touches only the index.
    index[4].read = true;
    // A refetch keeps the read flag, does not duplicate, and writes no body.
    let again = store_articles(index, &first);
    assert_eq!(again.index.len(), 5);
    assert!(again.index[4].read);
    assert!(again.write.is_empty());
    // Over the bound, the oldest go.
    let more: Vec<Article> = (5..(MAX_ARTICLES as u32 + 20)).map(article).collect();
    let last = store_articles(again.index, &more);
    assert_eq!(last.index.len(), MAX_ARTICLES);
    assert_eq!(last.write.len(), more.len());
    assert_eq!(last.dropped.len(), 20);
    assert!(last.dropped.contains(&article(0).url), "dropped body removed");
    assert!(!last.index.iter().any(|m| m.url == article(0).url));
    assert_eq!(last.index[0].url, article(MAX_ARTICLES as u32 + 19).url);
}

#[test]
fn a_refetch_refreshes_titles_and_keeps_a_known_date_when_none_is_given() {
    let s = store_articles(Vec::new(), &vec![article(1)]);
    let mut again = article(1);
    again.title = String::from("Renamed");
    again.feed_title = String::from("Example (new)");
    again.published = 0;
    again.read = true;
    let t = store_articles(s.index, &vec![again]);
    assert_eq!(t.index.len(), 1);
    assert_eq!(t.index[0].title, "Renamed");
    assert_eq!(t.index[0].feed_title, "Example (new)");
    assert_eq!(t.index[0].published, 1_000_001);
    assert!(!t.index[0].read);
}

#[test]
fn articles_of_one_date_keep_their_order() {
    let mut a = article(1);
    let mut b = article(2);
    let mut c = article(3);
    a.published = 7;
    b.published = 9;
    c.published = 7;
    let s = store_articles(Vec::new(), &vec![a, b, c]);
    let titles: Vec<&str> = s.index.iter().map(|m| m.title.as_str()).collect();
    assert_eq!(titles, vec!["Article 2", "Article 1", "Article 3"]);
}

#[test]
fn a_link_fetched_twice_in_one_batch_is_stored_once() {
    let mut again = article(1);
    again.title = String::from("Second");
    let s = store_articles(Vec::new(), &vec![article(1), again]);
    assert_eq!(s.index.len(), 1);
    assert_eq!(s.index[0].title, "Second");
    assert_eq!(s.write, vec![0]);
}
