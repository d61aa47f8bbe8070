use fia_docs_bot::parser::{parse_tokens, HtmlToken, HTMLParser};

fn start_tag(name: &str, class: Option<&str>, href: Option<&str>) -> HtmlToken {
    HtmlToken::StartTag {
        name: name.to_string(),
        class: class.map(|c| c.to_string()),
        href: href.map(|h| h.to_string()),
    }
}

fn text(t: &str) -> HtmlToken {
    HtmlToken::Text { text: t.to_string() }
}

#[test]
fn empty_input_yields_empty_season() {
    let season = parse_tokens(2024, &vec![]);
    assert_eq!(season.year, 2024);
    assert!(season.events.is_empty());
}

#[test]
fn event_with_zero_documents() {
    let tokens = vec![
        start_tag("ul", Some("event-wrapper"), None),
        start_tag("div", Some("event-title large"), None),
        text("  British Grand Prix  "),
        HtmlToken::EndOfInput,
    ];
    let season = parse_tokens(2024, &tokens);
    assert_eq!(season.events.len(), 1);
    let ev = &season.events[0];
    assert_eq!(ev.title.as_deref(), Some("British Grand Prix"));
    assert_eq!(ev.season, Some(2024));
    assert!(ev.documents.is_empty());
}

#[test]
fn full_event_with_documents() {
    let tokens = vec![
        start_tag("ul", Some("event-wrapper"), None),
        start_tag("div", Some("event-title"), None),
        text("Monaco Grand Prix"),
        start_tag("a", None, Some(" /doc one.pdf ")),
        start_tag("div", Some("title"), None),
        text(" Entry List "),
        start_tag("span", Some("date-display-single"), None),
        text(" 23.05.2024 "),
        start_tag("a", None, Some("/doc2.pdf")),
        start_tag("div", Some("title"), None),
        text("Stewards Decision"),
        start_tag("span", Some("date-display-single"), None),
        text("24.05.2024"),
        HtmlToken::EndOfInput,
    ];
    let season = parse_tokens(2024, &tokens);
    assert_eq!(season.events.len(), 1);
    let ev = &season.events[0];
    assert_eq!(ev.title.as_deref(), Some("Monaco Grand Prix"));
    assert_eq!(ev.documents.len(), 2);
    assert_eq!(
        ev.documents[0].url.as_deref(),
        Some("https://www.fia.com/doc%20one.pdf")
    );
    assert_eq!(ev.documents[0].title.as_deref(), Some("Entry List"));
    assert_eq!(ev.documents[0].date.as_deref(), Some("23.05.2024"));
    assert_eq!(
        ev.documents[1].url.as_deref(),
        Some("https://www.fia.com/doc2.pdf")
    );
    assert_eq!(ev.documents[1].title.as_deref(), Some("Stewards Decision"));
}

#[test]
fn blank_runs_are_skipped_and_unknown_tags_ignored() {
    let tokens = vec![
        start_tag("p", None, None),
        text("stray text outside any state"),
        start_tag("ul", Some("event-wrapper"), None),
        start_tag("div", Some("event-title"), None),
        text("   \n\t "),
        text("Spanish Grand Prix"),
        start_tag("table", Some("irrelevant"), None),
        HtmlToken::Other,
        HtmlToken::EndOfInput,
    ];
    let season = parse_tokens(2024, &tokens);
    assert_eq!(season.events.len(), 1);
    assert_eq!(season.events[0].title.as_deref(), Some("Spanish Grand Prix"));
}

#[test]
fn second_event_flushes_the_first() {
    let tokens = vec![
        start_tag("ul", Some("event-wrapper"), None),
        start_tag("div", Some("event-title"), None),
        text("First Event"),
        start_tag("ul", Some("event-wrapper"), None),
        start_tag("div", Some("event-title"), None),
        text("Second Event"),
        HtmlToken::EndOfInput,
    ];
    let season = parse_tokens(2024, &tokens);
    assert_eq!(season.events.len(), 2);
    assert_eq!(season.events[0].title.as_deref(), Some("First Event"));
    assert_eq!(season.events[1].title.as_deref(), Some("Second Event"));
}

#[test]
fn anchor_outside_next_state_is_ignored() {
    let tokens = vec![
        start_tag("a", None, Some("/ignored.pdf")),
        HtmlToken::EndOfInput,
    ];
    let season = parse_tokens(2024, &tokens);
    assert!(season.events.is_empty());
}

#[test]
fn incremental_parser_matches_batch_parse() {
    let tokens = vec![
        start_tag("ul", Some("event-wrapper"), None),
        start_tag("div", Some("event-title"), None),
        text("Some Event"),
        HtmlToken::EndOfInput,
    ];
    let mut p = HTMLParser::new(2024);
    for t in &tokens {
        p.process_token(t);
    }
    let season = p.into_season();
    let batch = parse_tokens(2024, &tokens);
    assert_eq!(season.events.len(), batch.events.len());
    assert_eq!(season.events[0].title, batch.events[0].title);
}
