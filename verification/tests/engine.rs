use personal_website::config::{Config, Query};
use personal_website::date::{display_date, format_date, Date};
use personal_website::layout::{publication_page, scaffold, PageConfig};
use personal_website::publication::{Delimiters, ParseError, Publication};
use personal_website::rules::{add_publication, add_publications, publication_matches, Page, Rule, RuleMode};
use personal_website::site::{parse_batch, sort_by_date_desc};
use personal_website::slug::slugify;

fn pub_with_tags(title: &str, tags: &[&str]) -> Publication {
    Publication::new(
        title.to_string(),
        Date { year: 2024, month: 1, day: 1 },
        "body".to_string(),
        tags.iter().map(|t| t.to_string()).collect(),
    )
}

#[test]
fn include_rule_requires_the_tag() {
    let page = Page::new(
        "P".to_string(),
        vec![Rule { mode: RuleMode::Include, tag: "paper".to_string() }],
    );
    assert!(publication_matches(&page, &pub_with_tags("a", &["paper", "misc"])));
    assert!(!publication_matches(&page, &pub_with_tags("b", &["misc"])));
}

#[test]
fn exclude_rule_forbids_the_tag() {
    let page = Page::new(
        "P".to_string(),
        vec![Rule { mode: RuleMode::Exclude, tag: "draft".to_string() }],
    );
    assert!(publication_matches(&page, &pub_with_tags("a", &["paper"])));
    assert!(!publication_matches(&page, &pub_with_tags("b", &["paper", "draft"])));
}

#[test]
fn rules_are_a_conjunction() {
    let page = Page::new(
        "P".to_string(),
        vec![
            Rule { mode: RuleMode::Include, tag: "paper".to_string() },
            Rule { mode: RuleMode::Exclude, tag: "draft".to_string() },
        ],
    );
    assert!(publication_matches(&page, &pub_with_tags("a", &["paper"])));
    assert!(!publication_matches(&page, &pub_with_tags("b", &["paper", "draft"])));
    assert!(!publication_matches(&page, &pub_with_tags("c", &["draft"])));
    assert!(!publication_matches(&page, &pub_with_tags("d", &[])));
}

#[test]
fn no_rules_accept_everything() {
    let page = Page::new("P".to_string(), Vec::new());
    assert!(publication_matches(&page, &pub_with_tags("a", &[])));
    assert!(publication_matches(&page, &pub_with_tags("b", &["anything"])));
}

#[test]
fn tag_match_is_exact() {
    let page = Page::new(
        "P".to_string(),
        vec![Rule { mode: RuleMode::Include, tag: "paper".to_string() }],
    );
    assert!(!publication_matches(&page, &pub_with_tags("a", &["papers"])));
    assert!(!publication_matches(&page, &pub_with_tags("b", &["Paper"])));
}

#[test]
fn accepted_publications_append_in_call_order() {
    let mut page = Page::new(
        "P".to_string(),
        vec![Rule { mode: RuleMode::Include, tag: "k".to_string() }],
    );
    assert!(add_publication(&mut page, pub_with_tags("one", &["k"])));
    assert!(!add_publication(&mut page, pub_with_tags("skipped", &[])));
    assert!(add_publication(&mut page, pub_with_tags("two", &["k", "x"])));
    let titles: Vec<&str> = page.selected.iter().map(|p| p.title.as_str()).collect();
    assert_eq!(titles, vec!["one", "two"]);
}

#[test]
fn batch_selection_keeps_input_order() {
    let mut page = Page::new(
        "P".to_string(),
        vec![Rule { mode: RuleMode::Include, tag: "k".to_string() }],
    );
    add_publications(
        &mut page,
        vec![
            pub_with_tags("a", &["k"]),
            pub_with_tags("b", &[]),
            pub_with_tags("c", &["k"]),
        ],
    );
    let titles: Vec<&str> = page.selected.iter().map(|p| p.title.as_str()).collect();
    assert_eq!(titles, vec!["a", "c"]);
}

#[test]
fn slugify_hey_there() {
    assert_eq!(slugify("Hey There! 2024"), "hey-there-2024");
}

#[test]
fn slugify_is_idempotent_on_samples() {
    for s in ["Hey There! 2024", "Cláudio Gomes", "a--b  c", "ALL CAPS?!"] {
        let once = slugify(s);
        assert_eq!(slugify(&once), once);
    }
}

#[test]
fn slugify_lowercases_before_the_ascii_filter() {
    // The Kelvin sign lowercases to the ASCII letter k, and the dotted
    // capital I to the letter i (its combining dot is then dropped).
    assert_eq!(slugify("\u{212a}"), "k");
    assert_eq!(slugify("\u{130}"), "i");
    assert_eq!(slugify("273\u{212a} max"), "273k-max");
}

#[test]
fn slugify_drops_non_ascii() {
    assert_eq!(slugify("Cláudio"), "cludio");
    assert_eq!(slugify("naïve idea"), "nave-idea");
}

#[test]
fn date_formats() {
    let d = Date { year: 987, month: 6, day: 5 };
    assert_eq!(format_date(&d), "0987/06/05");
    assert_eq!(display_date(&d), "0987-06-05");
}

#[test]
fn sorting_is_stable_for_equal_dates() {
    let same = Date { year: 2024, month: 3, day: 3 };
    let mut pubs = vec![
        Publication::new("first".to_string(), same, String::new(), Vec::new()),
        Publication::new("late".to_string(), Date { year: 2025, month: 1, day: 1 }, String::new(), Vec::new()),
        Publication::new("second".to_string(), same, String::new(), Vec::new()),
        Publication::new("third".to_string(), same, String::new(), Vec::new()),
    ];
    sort_by_date_desc(&mut pubs);
    let titles: Vec<&str> = pubs.iter().map(|p| p.title.as_str()).collect();
    assert_eq!(titles, vec!["late", "first", "second", "third"]);
}

#[test]
fn sorting_is_most_recent_first() {
    let mut pubs = vec![
        Publication::new("old".to_string(), Date { year: 2020, month: 5, day: 1 }, String::new(), Vec::new()),
        Publication::new("new".to_string(), Date { year: 2024, month: 1, day: 1 }, String::new(), Vec::new()),
        Publication::new("mid".to_string(), Date { year: 2022, month: 12, day: 31 }, String::new(), Vec::new()),
        Publication::new("newest".to_string(), Date { year: 2024, month: 1, day: 2 }, String::new(), Vec::new()),
    ];
    sort_by_date_desc(&mut pubs);
    let titles: Vec<&str> = pubs.iter().map(|p| p.title.as_str()).collect();
    assert_eq!(titles, vec!["newest", "new", "mid", "old"]);
}

#[test]
fn one_bad_record_does_not_stop_the_batch() {
    let d = Delimiters::standard();
    let texts = vec![
        "\u{1f356}TITLE\u{1f356}A\u{1f356}DATE\u{1f356}2024/01/01\u{1f356}MARKDOWN\u{1f356}m\u{1f356}TAGS\u{1f356}t".to_string(),
        "completely malformed".to_string(),
        "\u{1f356}TITLE\u{1f356}B\u{1f356}DATE\u{1f356}2024/01/02\u{1f356}MARKDOWN\u{1f356}m\u{1f356}TAGS\u{1f356}t".to_string(),
    ];
    let (pubs, errors) = parse_batch(&texts, &d);
    let titles: Vec<&str> = pubs.iter().map(|p| p.title.as_str()).collect();
    assert_eq!(titles, vec!["A", "B"]);
    assert_eq!(errors, vec![(1usize, ParseError::MissingDateToken)]);
}

#[test]
fn config_accepts_each_alias() {
    let cases = [
        ("p", Query::Publish), ("pub", Query::Publish), ("publ", Query::Publish),
        ("publish", Query::Publish),
        ("m", Query::Modify), ("mod", Query::Modify), ("modi", Query::Modify),
        ("modify", Query::Modify),
        ("b", Query::Build), ("bui", Query::Build), ("buil", Query::Build),
        ("build", Query::Build),
    ];
    for (arg, want) in cases {
        let args = vec!["site".to_string(), arg.to_string()];
        let c = Config::new(&args).unwrap();
        assert_eq!(c.query(), want);
    }
}

#[test]
fn config_rejects_bad_arguments() {
    match Config::new(&["site".to_string()]) {
        Err(m) => assert_eq!(m, "Invalid number of arguments"),
        Ok(_) => panic!("one argument must be rejected"),
    }
    match Config::new(&["site".to_string(), "b".to_string(), "x".to_string()]) {
        Err(m) => assert_eq!(m, "Invalid number of arguments"),
        Ok(_) => panic!("three arguments must be rejected"),
    }
    match Config::new(&["site".to_string(), "bananas".to_string()]) {
        Err(m) => assert_eq!(m, "Invalid query"),
        Ok(_) => panic!("an unknown query must be rejected"),
    }
}

fn page_cfg(title: &str) -> PageConfig {
    PageConfig {
        title: title.to_string(),
        stylesheets: vec!["css/science.css".to_string()],
        nav_links: vec![("Publications".to_string(), "publications.html".to_string())],
    }
}

#[test]
fn publication_page_embeds_everything() {
    let p = Publication::new(
        "Hi".to_string(),
        Date { year: 2024, month: 1, day: 2 },
        "**bold**".to_string(),
        vec!["a".to_string(), "b".to_string()],
    );
    let body_html = p.to_html();
    let doc = publication_page(&page_cfg("Site | Hi"), &p, &body_html);
    let html = doc.serialize();
    assert!(html.starts_with("<!DOCTYPE html>\n"));
    assert!(html.contains("<title>Site | Hi</title>"));
    assert!(html.contains("rel=\"stylesheet\" href=\"css/science.css\""));
    assert!(html.contains("<nav><a href=\"publications.html\">Publications</a></nav>"));
    assert!(html.contains("<h1>Hi</h1>"));
    assert!(html.contains("<h2>2024-01-02</h2>"));
    assert!(html.contains("<strong>bold</strong>"));
    assert!(html.contains("<li>a</li>"));
    assert!(html.contains("<li>b</li>"));
    assert!(html.contains("<footer></footer></body>"));
}

#[test]
fn scaffold_links_stylesheets_and_nav() {
    let cfg = PageConfig {
        title: "Homepage".to_string(),
        stylesheets: vec!["css/a.css".to_string(), "css/b.css".to_string()],
        nav_links: vec![("Who am I?".to_string(), "who.html".to_string())],
    };
    let (mut doc, body) = scaffold(&cfg);
    doc.text(body, "content");
    let html = doc.serialize();
    assert!(html.contains("<title>Homepage</title>"));
    assert!(html.contains("<meta charset=\"utf-8\">"));
    let a = html.find("css/a.css").unwrap();
    let b = html.find("css/b.css").unwrap();
    assert!(a < b);
    assert!(html.contains("<nav><a href=\"who.html\">Who am I?</a></nav>"));
    assert!(html.contains("content</body>"));
}

#[test]
fn end_to_end_one_record_two_pages() {
    let d = Delimiters::standard();
    let texts = vec![
        "\u{1f356}TITLE\u{1f356}Hi\u{1f356}DATE\u{1f356}2024/01/02\u{1f356}MARKDOWN\u{1f356}**bold**\u{1f356}TAGS\u{1f356}a,b".to_string(),
    ];
    let (pubs, errors) = parse_batch(&texts, &d);
    assert!(errors.is_empty());
    assert_eq!(pubs.len(), 1);

    let mut page_a = Page::new(
        "A".to_string(),
        vec![Rule { mode: RuleMode::Include, tag: "a".to_string() }],
    );
    let page_c = Page::new(
        "C".to_string(),
        vec![Rule { mode: RuleMode::Include, tag: "c".to_string() }],
    );
    for p in &pubs {
        assert!(publication_matches(&page_a, p));
        assert!(!publication_matches(&page_c, p));
    }
    add_publications(&mut page_a, pubs);
    assert_eq!(page_a.selected.len(), 1);
    assert_eq!(page_c.selected.len(), 0);

    let selected = &page_a.selected[0];
    let body_html = selected.to_html();
    let doc = publication_page(&page_cfg("Hi"), selected, &body_html);
    let html = doc.serialize();
    assert!(html.contains("Hi"));
    assert!(html.contains("<strong>bold</strong>"));
    assert!(html.contains("<li>a</li>"));
    assert!(html.contains("<li>b</li>"));
}

#[test]
fn markdown_rendering_goes_through_the_converter() {
    let p = Publication::new(
        "t".to_string(),
        Date { year: 2024, month: 1, day: 1 },
        "**bold** and *em*".to_string(),
        Vec::new(),
    );
    let html = p.to_html();
    assert_ne!(html, p.markdown);
    assert!(html.contains("<strong>bold</strong>"));
    assert!(html.contains("<em>em</em>"));
}
