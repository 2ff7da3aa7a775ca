use mauveweasel::newsgen::{ArticleOutcome, CacheKey, Document, FileIndex, Newsgen, TocOutcome};

fn doc_key(name: &str, t: i128) -> CacheKey {
    CacheKey::Document(FileIndex::new(name.to_string(), t))
}

fn text_of(r: &mauveweasel::http::Response) -> String {
    String::from_utf8(r.generate()).unwrap()
}

const ARTICLE: &str = "Category: Tech\nUrl: my-slug\nPubdate: 2018-06-01\nHeadline: Hello\nBrief: Short\nTakeaway: one\nTakeaway: two\nBogus: x\n\n# Title\r\n\nBody line\n";

#[test]
fn document_from_text() {
    assert!(Document::headers_readable(ARTICLE));
    let d = Document::from_text("u-1".to_string(), ARTICLE);
    assert_eq!(d.uuid(), "u-1");
    assert_eq!(d.category(), "Tech");
    assert_eq!(d.slug(), "my-slug");
    assert_eq!(d.pubdate(), "2018-06-01");
    assert_eq!(d.headline(), "Hello");
    assert_eq!(d.brief(), "Short");
    assert_eq!(d.takeaways(), &vec!["one".to_string(), "two".to_string()]);
    assert_eq!(d.document_text(), "# Title\n\nBody line");
}

#[test]
fn document_without_body() {
    let d = Document::from_text("u".to_string(), "Headline: Only: header");
    assert_eq!(d.headline(), "Only: header");
    assert_eq!(d.document_text(), "");
    let e = Document::from_text("u".to_string(), "\nJust text\nmore");
    assert_eq!(e.category(), "");
    assert_eq!(e.document_text(), "Just text\nmore");
}

#[test]
fn document_headers_readable() {
    assert!(!Document::headers_readable("Category\n\ntext"));
    assert!(!Document::headers_readable("Url: a\nTakeaway\n"));
    assert!(Document::headers_readable("Whatever\n\nCategory"));
    assert!(Document::headers_readable(""));
}

#[test]
fn document_new_is_empty() {
    let d = Document::new();
    assert_eq!(d.uuid(), "");
    assert_eq!(d.category(), "");
    assert!(d.takeaways().is_empty());
    assert_eq!(d.document_text(), "");
}

#[test]
fn document_markdown() {
    let mut d = Document::from_text("u".to_string(), "Category: A\n\n# Title\n\nSome *text*.");
    d.convert_markdown();
    assert_eq!(d.document_text(), "<h1>Title</h1>\n<p>Some <em>text</em>.</p>\n");
    assert_eq!(d.category(), "A");
}

#[test]
fn toc_groups_by_first_appearance() {
    let docs = vec![
        Document::from_text("1".to_string(), "Category: B\n\n"),
        Document::from_text("2".to_string(), "Category: A\n\n"),
        Document::from_text("3".to_string(), "Category: B\n\n"),
        Document::from_text("4".to_string(), "\n"),
    ];
    let n = Newsgen::new(4);
    let toc = n.sort_toc_data(&docs);
    assert_eq!(
        toc,
        vec![
            ("B".to_string(), vec![0usize, 2]),
            ("A".to_string(), vec![1usize]),
            ("".to_string(), vec![3usize]),
        ]
    );
    assert!(n.sort_toc_data(&vec![]).is_empty());
}

#[test]
fn file_index_parts() {
    let f = FileIndex::new("./news/a.md".to_string(), 42);
    assert_eq!(f.filename(), "./news/a.md");
    assert_eq!(f.modified_time(), 42);
    assert!(f == FileIndex::new("./news/a.md".to_string(), 42));
    assert!(f != FileIndex::new("./news/a.md".to_string(), 43));
}

#[test]
fn cache_key_equality() {
    let a = FileIndex::new("a".to_string(), 1);
    let b = FileIndex::new("b".to_string(), 2);
    assert!(doc_key("a", 1) == doc_key("a", 1));
    assert!(doc_key("a", 1) != doc_key("a", 2));
    let ab = CacheKey::Aggregate(vec![a.copy(), b.copy()]);
    let ba = CacheKey::Aggregate(vec![b.copy(), a.copy()]);
    assert!(ab == ba);
    assert!(!ab.same(&ba));
    assert!(ab.same(&ab.copy()));
    assert!(ab != CacheKey::Aggregate(vec![a.copy()]));
    assert!(doc_key("a", 1) != CacheKey::Aggregate(vec![a.copy()]));
    assert_eq!(ab.unwrap_aggregate().len(), 2);
    assert_eq!(doc_key("a", 1).unwrap_document().filename(), "a");
}

#[test]
fn cache_lookup_store_and_evict() {
    let mut n = Newsgen::new(2);
    assert_eq!(n.lookup(&doc_key("a", 1)), None);
    n.store(doc_key("a", 1), "A".to_string());
    n.store(doc_key("b", 1), "B".to_string());
    assert_eq!(n.lookup(&doc_key("a", 1)), Some("A".to_string()));
    assert_eq!(n.lookup(&doc_key("a", 2)), None);
    n.store(doc_key("c", 1), "C".to_string());
    assert_eq!(n.lookup(&doc_key("b", 1)), None);
    assert_eq!(n.lookup(&doc_key("a", 1)), Some("A".to_string()));
    assert_eq!(n.lookup(&doc_key("c", 1)), Some("C".to_string()));
    n.store(doc_key("c", 1), "C2".to_string());
    assert_eq!(n.lookup(&doc_key("c", 1)), Some("C2".to_string()));
}

#[test]
fn cache_drain_then_load() {
    let mut n = Newsgen::new(3);
    let agg = CacheKey::Aggregate(vec![FileIndex::new("a".to_string(), 1)]);
    n.store(doc_key("a", 1), "A".to_string());
    n.store(agg.copy(), "TOC".to_string());
    n.store(doc_key("b", 1), "B".to_string());
    assert_eq!(n.lookup(&doc_key("a", 1)), Some("A".to_string()));
    let items = n.drain();
    let texts: Vec<&str> = items.iter().map(|(_, v)| v.as_str()).collect();
    assert_eq!(texts, vec!["TOC", "B", "A"]);
    assert_eq!(n.lookup(&doc_key("a", 1)), None);
    let mut m = Newsgen::new(3);
    m.load(items);
    assert_eq!(m.lookup(&agg), Some("TOC".to_string()));
    assert_eq!(m.lookup(&doc_key("b", 1)), Some("B".to_string()));
    assert_eq!(m.drain().len(), 3);
}

#[test]
fn cache_of_size_zero_keeps_nothing() {
    let mut n = Newsgen::new(0);
    n.store(doc_key("a", 1), "A".to_string());
    assert_eq!(n.lookup(&doc_key("a", 1)), None);
}

#[test]
fn article_responses() {
    assert_eq!(
        text_of(&Newsgen::article_response(ArticleOutcome::NotFound)),
        "HTTP/1.1 404 \r\nContent-Type: text/plain\r\nContent-Length: 9\r\n\r\nNot found"
    );
    assert_eq!(
        text_of(&Newsgen::article_response(ArticleOutcome::Rendered("<p>x</p>".to_string()))),
        "HTTP/1.1 200 \r\nContent-Type: text/html\r\nContent-Length: 8\r\n\r\n<p>x</p>"
    );
    assert!(text_of(&Newsgen::article_response(ArticleOutcome::Cached("c".to_string()))).ends_with("\r\n\r\nc"));
    assert!(text_of(&Newsgen::article_response(ArticleOutcome::KeystoreUnreadable))
        .ends_with("Internal server error: Could not open uuid keystore"));
    assert!(text_of(&Newsgen::article_response(ArticleOutcome::RenderFailed))
        .ends_with("Internal server error: Failed to render document"));
    assert!(text_of(&Newsgen::article_response(ArticleOutcome::CacheNotSaved))
        .starts_with("HTTP/1.1 500 "));
}

#[test]
fn toc_responses() {
    assert!(text_of(&Newsgen::toc_response(TocOutcome::DirectoryUnreadable))
        .ends_with("Internal server error: Unable to get directory list"));
    assert!(text_of(&Newsgen::toc_response(TocOutcome::DocumentUnreadable))
        .ends_with("Internal server error: Failed to open document"));
    assert_eq!(
        text_of(&Newsgen::toc_response(TocOutcome::Rendered("<ul></ul>".to_string()))),
        "HTTP/1.1 200 \r\nContent-Type: text/html\r\nContent-Length: 9\r\n\r\n<ul></ul>"
    );
}
