use personal_website::date::{parse_date, Date};
use personal_website::publication::{
    make_gobbet, make_gobbet_checked, parse_gobbet, Delimiters, ParseError, Publication,
};

fn sample_gobbet() -> String {
    "\u{1f356}TITLE\u{1f356} Hi \u{1f356}DATE\u{1f356} 2024/01/02 \u{1f356}MARKDOWN\u{1f356} **bold** \u{1f356}TAGS\u{1f356}a,b".to_string()
}

#[test]
fn publication_from_gobbet() {
    assert!(parse_gobbet(&sample_gobbet(), &Delimiters::standard()).is_ok());
}

#[test]
fn parse_fills_all_four_fields() {
    let p = parse_gobbet(&sample_gobbet(), &Delimiters::standard()).unwrap();
    assert_eq!(p.title, "Hi");
    assert_eq!(p.date, Date { year: 2024, month: 1, day: 2 });
    assert_eq!(p.markdown, "**bold**");
    assert_eq!(p.tags, vec!["a".to_string(), "b".to_string()]);
}

#[test]
fn parse_trims_whitespace_and_strips_labels() {
    let d = Delimiters::standard();
    let text = "\u{1f356}TITLE\u{1f356}\n  A Title \u{1f356}TITLE\u{1f356} \u{1f356}DATE\u{1f356}\t2023/12/31\n\u{1f356}MARKDOWN\u{1f356}\nbody text\n\u{1f356}TAGS\u{1f356} x , y ";
    let p = parse_gobbet(text, &d).unwrap();
    assert_eq!(p.title, "A Title");
    assert_eq!(p.date, Date { year: 2023, month: 12, day: 31 });
    assert_eq!(p.markdown, "body text");
    assert_eq!(p.tags, vec!["x".to_string(), "y".to_string()]);
}

#[test]
fn body_may_contain_earlier_tokens() {
    let d = Delimiters::standard();
    let text = "\u{1f356}TITLE\u{1f356}T\u{1f356}DATE\u{1f356}2024/06/15\u{1f356}MARKDOWN\u{1f356}see \u{1f356}DATE\u{1f356} above\u{1f356}TAGS\u{1f356}t";
    let p = parse_gobbet(text, &d).unwrap();
    // The date token inside the body is ordinary text once the date
    // section is behind us.
    assert_eq!(p.markdown, "see \u{1f356}DATE\u{1f356} above");
}

#[test]
fn body_is_cut_at_a_later_token() {
    let d = Delimiters::standard();
    let text = "\u{1f356}TITLE\u{1f356}T\u{1f356}DATE\u{1f356}2024/06/15\u{1f356}MARKDOWN\u{1f356}before \u{1f356}TAGS\u{1f356} after\u{1f356}TAGS\u{1f356}t";
    let p = parse_gobbet(text, &d).unwrap();
    // A structural limit of the format: the body cannot hold the tags
    // token; everything from its first occurrence belongs to the tags.
    assert_eq!(p.markdown, "before");
    assert_eq!(p.tags, vec!["after\u{1f356}TAGS\u{1f356}t".to_string()]);
}

#[test]
fn unicode_white_space_is_trimmed() {
    let d = Delimiters::standard();
    // No-break space and ideographic space count as white space too.
    let text = "\u{1f356}TITLE\u{1f356}\u{a0}Spaced Out\u{a0}\u{1f356}DATE\u{1f356}2024/06/15\u{1f356}MARKDOWN\u{1f356}\u{3000}m\u{3000}\u{1f356}TAGS\u{1f356}\u{a0}t\u{a0}";
    let p = parse_gobbet(text, &d).unwrap();
    assert_eq!(p.title, "Spaced Out");
    assert_eq!(p.markdown, "m");
    assert_eq!(p.tags, vec!["t".to_string()]);
}

#[test]
fn consecutive_commas_keep_empty_tags() {
    let d = Delimiters::standard();
    let text = "\u{1f356}TITLE\u{1f356}T\u{1f356}DATE\u{1f356}2024/06/15\u{1f356}MARKDOWN\u{1f356}m\u{1f356}TAGS\u{1f356}a,,b";
    let p = parse_gobbet(text, &d).unwrap();
    assert_eq!(p.tags, vec!["a".to_string(), "".to_string(), "b".to_string()]);
}

#[test]
fn missing_date_token_is_reported() {
    let d = Delimiters::standard();
    let r = parse_gobbet("\u{1f356}TITLE\u{1f356}only a title", &d);
    assert_eq!(r.unwrap_err(), ParseError::MissingDateToken);
}

#[test]
fn missing_markdown_token_is_reported() {
    let d = Delimiters::standard();
    let r = parse_gobbet("\u{1f356}TITLE\u{1f356}T\u{1f356}DATE\u{1f356}2024/01/02", &d);
    assert_eq!(r.unwrap_err(), ParseError::MissingMarkdownToken);
}

#[test]
fn missing_tags_token_is_reported() {
    let d = Delimiters::standard();
    let r = parse_gobbet(
        "\u{1f356}TITLE\u{1f356}T\u{1f356}DATE\u{1f356}2024/01/02\u{1f356}MARKDOWN\u{1f356}m",
        &d,
    );
    assert_eq!(r.unwrap_err(), ParseError::MissingTagsToken);
}

#[test]
fn malformed_date_is_reported() {
    let d = Delimiters::standard();
    let text = "\u{1f356}TITLE\u{1f356}T\u{1f356}DATE\u{1f356}01/02/2024\u{1f356}MARKDOWN\u{1f356}m\u{1f356}TAGS\u{1f356}t";
    assert_eq!(parse_gobbet(text, &d).unwrap_err(), ParseError::BadDate);
}

#[test]
fn date_outside_its_month_is_reported() {
    let d = Delimiters::standard();
    let text = "\u{1f356}TITLE\u{1f356}T\u{1f356}DATE\u{1f356}2023/02/29\u{1f356}MARKDOWN\u{1f356}m\u{1f356}TAGS\u{1f356}t";
    assert_eq!(parse_gobbet(text, &d).unwrap_err(), ParseError::BadDate);
}

#[test]
fn leap_day_parses_in_a_leap_year() {
    assert_eq!(parse_date("2024/02/29"), Some(Date { year: 2024, month: 2, day: 29 }));
    assert_eq!(parse_date("1900/02/29"), None);
    assert_eq!(parse_date("2000/02/29"), Some(Date { year: 2000, month: 2, day: 29 }));
}

#[test]
fn date_text_must_match_the_fixed_form() {
    assert_eq!(parse_date("2024/1/2"), None);
    assert_eq!(parse_date("2024-01-02"), None);
    assert_eq!(parse_date("2024/00/10"), None);
    assert_eq!(parse_date("2024/13/10"), None);
    assert_eq!(parse_date("2024/04/31"), None);
    assert_eq!(parse_date("2024/04/30"), Some(Date { year: 2024, month: 4, day: 30 }));
}

#[test]
fn gobbet_round_trip_recovers_the_record() {
    let d = Delimiters::standard();
    let p = Publication::new(
        "My Title".to_string(),
        Date { year: 2022, month: 7, day: 9 },
        "Some **markdown** body.".to_string(),
        vec!["paper".to_string(), "misc".to_string()],
    );
    let text = make_gobbet(&p, &d);
    let q = parse_gobbet(&text, &d).unwrap();
    assert_eq!(q.title, p.title);
    assert_eq!(q.date, p.date);
    assert_eq!(q.markdown, p.markdown);
    assert_eq!(q.tags, p.tags);
}

#[test]
fn custom_delimiters_work() {
    let d = Delimiters {
        title: "@T@".to_string(),
        date: "@D@".to_string(),
        markdown: "@M@".to_string(),
        tags: "@G@".to_string(),
    };
    let p = parse_gobbet("@T@ t @D@ 2021/03/04 @M@ m @G@one", &d).unwrap();
    assert_eq!(p.title, "t");
    assert_eq!(p.date, Date { year: 2021, month: 3, day: 4 });
    assert_eq!(p.markdown, "m");
    assert_eq!(p.tags, vec!["one".to_string()]);
}

#[test]
fn checked_writer_accepts_a_safe_record() {
    let d = Delimiters::standard();
    let p = Publication::new(
        "A Safe Title".to_string(),
        Date { year: 2023, month: 11, day: 5 },
        "plain body".to_string(),
        vec!["one".to_string(), "two".to_string()],
    );
    let text = make_gobbet_checked(&p, &d).unwrap();
    assert_eq!(text, make_gobbet(&p, &d));
    let q = parse_gobbet(&text, &d).unwrap();
    assert_eq!(q.title, p.title);
    assert_eq!(q.tags, p.tags);
}

#[test]
fn checked_writer_rejects_unsafe_records() {
    let d = Delimiters::standard();
    // A body holding the tags token would be cut at parse time.
    let cut_body = Publication::new(
        "T".to_string(),
        Date { year: 2023, month: 11, day: 5 },
        "body \u{1f356}TAGS\u{1f356} more".to_string(),
        vec!["one".to_string()],
    );
    assert!(make_gobbet_checked(&cut_body, &d).is_none());
    // A tag holding a comma would split into two tags.
    let split_tag = Publication::new(
        "T".to_string(),
        Date { year: 2023, month: 11, day: 5 },
        "body".to_string(),
        vec!["a,b".to_string()],
    );
    assert!(make_gobbet_checked(&split_tag, &d).is_none());
    // No tags at all cannot round-trip: splitting always yields a piece.
    let no_tags = Publication::new(
        "T".to_string(),
        Date { year: 2023, month: 11, day: 5 },
        "body".to_string(),
        Vec::new(),
    );
    assert!(make_gobbet_checked(&no_tags, &d).is_none());
}
