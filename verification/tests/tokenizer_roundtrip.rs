//! Feeds a captured-style FIA index page through the real HTML
//! tokenizer and checks that the parser extracts the same event titles
//! and document hrefs that a direct reading of the markup gives.

use std::cell::RefCell;

use fia_docs_bot::parser::{parse_tokens, HtmlToken};
use html5ever::tendril::{ByteTendril, ReadExt};
use html5ever::tokenizer::{
    BufferQueue, TagKind, Token, TokenSink, TokenSinkResult, Tokenizer, TokenizerOpts,
};

struct Collector {
    tokens: RefCell<Vec<HtmlToken>>,
}

impl TokenSink for Collector {
    type Handle = ();

    fn process_token(&self, token: Token, _line_number: u64) -> TokenSinkResult<()> {
        let converted = match token {
            Token::TagToken(tag) => {
                if matches!(tag.kind, TagKind::StartTag) {
                    let class = tag
                        .attrs
                        .iter()
                        .find(|a| AsRef::<str>::as_ref(&a.name.local) == "class")
                        .map(|a| a.value.to_string());
                    let href = tag
                        .attrs
                        .iter()
                        .find(|a| AsRef::<str>::as_ref(&a.name.local) == "href")
                        .map(|a| a.value.to_string());
                    HtmlToken::StartTag {
                        name: AsRef::<str>::as_ref(&tag.name).to_string(),
                        class,
                        href,
                    }
                } else {
                    HtmlToken::Other
                }
            }
            Token::CharacterTokens(chars) => HtmlToken::Text {
                text: chars.to_string(),
            },
            Token::EOFToken => HtmlToken::EndOfInput,
            _ => HtmlToken::Other,
        };
        self.tokens.borrow_mut().push(converted);
        TokenSinkResult::Continue
    }
}

fn tokenize(html: &str) -> Vec<HtmlToken> {
    let mut tendril = ByteTendril::new();
    html.as_bytes().read_to_tendril(&mut tendril).unwrap();
    let input = BufferQueue::default();
    input.push_back(tendril.try_reinterpret().unwrap());
    let sink = Collector {
        tokens: RefCell::new(Vec::new()),
    };
    let tok = Tokenizer::new(sink, TokenizerOpts::default());
    let _ = tok.feed(&input);
    tok.end();
    tok.sink.tokens.into_inner()
}

#[test]
fn tokenizer_fed_index_page_extracts_titles_and_hrefs() {
    let html = "<html><body>\
        <ul class=\"event-wrapper\">\
        <div class=\"event-title active\"> British Grand Prix </div>\
        <a href=\"/sites/default/files/decision doc.pdf\">\
        <div class=\"title\"> Entry List </div>\
        <span class=\"date-display-single\"> 04.07.2024 </span>\
        </a>\
        <a href=\"/sites/default/files/other.pdf\">\
        <div class=\"title\"> Stewards Decision </div>\
        <span class=\"date-display-single\"> 05.07.2024 </span>\
        </a>\
        </ul>\
        <ul class=\"event-wrapper\">\
        <div class=\"event-title\"> Hungarian Grand Prix </div>\
        </ul>\
        </body></html>";
    let tokens = tokenize(html);
    let season = parse_tokens(2024, &tokens);

    // What a direct reading of the markup gives.
    let titles: Vec<&str> = season
        .events
        .iter()
        .map(|e| e.title.as_deref().unwrap())
        .collect();
    assert_eq!(titles, vec!["British Grand Prix", "Hungarian Grand Prix"]);

    let hrefs: Vec<&str> = season.events[0]
        .documents
        .iter()
        .map(|d| d.url.as_deref().unwrap())
        .collect();
    assert_eq!(
        hrefs,
        vec![
            "https://www.fia.com/sites/default/files/decision%20doc.pdf",
            "https://www.fia.com/sites/default/files/other.pdf",
        ]
    );
    assert!(season.events[1].documents.is_empty());
}
