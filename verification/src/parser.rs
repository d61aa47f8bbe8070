//! The index-page parser: a token-driven state machine that turns the
//! FIA season page into a `Season { events[] { documents[] } }` tree.
//!
//! The HTML tokenizer itself is outside code; callers hand each token to
//! [`HTMLParser::process_token`] as a plain [`HtmlToken`] value. The whole
//! transition relation is stated by [`spec_step`], and the parser is
//! proved to follow it token by token.

use vstd::prelude::*;
use vstd::string::StrSliceExecFns;
use vstd::string::StringExecFns;

use crate::text::is_blank;
use crate::text::spec_encode_spaces;
use crate::text::spec_has_prefix;
use crate::text::spec_trim;
use crate::text::encode_spaces;
use crate::text::str_eq;
use crate::text::str_has_prefix;
use crate::text::trim_str;

verus! {

/// One tokenizer output, reduced to what the state machine reads: the
/// tag name with its `class` and `href` attributes for start tags, the
/// text of a character run, the end of the input, or anything else.
#[derive(Clone, Debug)]
pub enum HtmlToken {
    StartTag { name: String, class: Option<String>, href: Option<String> },
    Text { text: String },
    EndOfInput,
    Other,
}

/// States of the parser; `Idle` is the state before any event wrapper
/// has been seen.
#[derive(Clone, Copy, Debug, PartialEq, Eq, Structural)]
pub enum ParserState {
    Idle,
    BeginEvent,
    EventTitle,
    Document,
    DocumentTitle,
    DocumentDate,
    Next,
}

/// A document as parsed from the index: upstream URL, title and date
/// are filled in as their markup arrives.
#[derive(Clone, Debug, PartialEq)]
pub struct ParserDocument {
    pub title: Option<String>,
    pub url: Option<String>,
    pub date: Option<String>,
}

/// An event as parsed from the index.
#[derive(Clone, Debug, PartialEq)]
pub struct ParserEvent {
    pub title: Option<String>,
    pub season: Option<i32>,
    pub documents: Vec<ParserDocument>,
}

/// The parse result: all events of one season page.
#[derive(Clone, Debug, PartialEq)]
pub struct Season {
    pub year: i32,
    pub events: Vec<ParserEvent>,
}

/// The parser: current state, finished events, and the pending event
/// and document still being assembled.
#[derive(Debug)]
pub struct HTMLParser {
    pub state: ParserState,
    pub season: Season,
    pub event: Option<ParserEvent>,
    pub document: Option<ParserDocument>,
}

/// Mathematical image of a parsed document.
pub struct DocModel {
    pub title: Option<Seq<char>>,
    pub url: Option<Seq<char>>,
    pub date: Option<Seq<char>>,
}

/// Mathematical image of a parsed event.
pub struct EventModel {
    pub title: Option<Seq<char>>,
    pub season: Option<int>,
    pub documents: Seq<DocModel>,
}

/// Mathematical image of a season.
pub struct SeasonModel {
    pub year: int,
    pub events: Seq<EventModel>,
}

/// Mathematical image of the whole parser.
pub struct ParserModel {
    pub state: ParserState,
    pub season: SeasonModel,
    pub event: Option<EventModel>,
    pub document: Option<DocModel>,
}

/// Mathematical image of a token.
pub enum TokenModel {
    StartTag { name: Seq<char>, class: Option<Seq<char>>, href: Option<Seq<char>> },
    Text { text: Seq<char> },
    EndOfInput,
    Other,
}

pub open spec fn opt_str_view(o: Option<String>) -> Option<Seq<char>> {
    match o {
        Some(s) => Some(s@),
        None => None,
    }
}

impl View for HtmlToken {
    type V = TokenModel;

    open spec fn view(&self) -> TokenModel {
        match self {
            HtmlToken::StartTag { name, class, href } => (TokenModel::StartTag {
                name: name@,
                class: opt_str_view(*class),
                href: opt_str_view(*href),
            }),
            HtmlToken::Text { text } => (TokenModel::Text { text: text@ }),
            HtmlToken::EndOfInput => TokenModel::EndOfInput,
            HtmlToken::Other => TokenModel::Other,
        }
    }
}

impl View for ParserDocument {
    type V = DocModel;

    open spec fn view(&self) -> DocModel {
        DocModel {
            title: opt_str_view(self.title),
            url: opt_str_view(self.url),
            date: opt_str_view(self.date),
        }
    }
}

impl View for ParserEvent {
    type V = EventModel;

    open spec fn view(&self) -> EventModel {
        EventModel {
            title: opt_str_view(self.title),
            season: match self.season {
                Some(y) => Some(y as int),
                None => None,
            },
            documents: self.documents@.map_values(|d: ParserDocument| d@),
        }
    }
}

impl View for Season {
    type V = SeasonModel;

    open spec fn view(&self) -> SeasonModel {
        SeasonModel {
            year: self.year as int,
            events: self.events@.map_values(|e: ParserEvent| e@),
        }
    }
}

impl View for HTMLParser {
    type V = ParserModel;

    open spec fn view(&self) -> ParserModel {
        ParserModel {
            state: self.state,
            season: self.season@,
            event: match self.event {
                Some(e) => Some(e@),
                None => None,
            },
            document: match self.document {
                Some(d) => Some(d@),
                None => None,
            },
        }
    }
}

/// The fixed prefix put before every parsed document href.
pub open spec fn spec_base_url() -> Seq<char> {
    "https://www.fia.com"@
}

/// Appends the pending event, if any, to the season.
pub open spec fn spec_flush_event(m: ParserModel) -> ParserModel {
    match m.event {
        Some(e) => (ParserModel {
            season: (SeasonModel { events: m.season.events.push(e), ..m.season }),
            event: None,
            ..m
        }),
        None => m,
    }
}

/// The transition relation of the parser, one token at a time. It
/// mirrors the markup of the index page: `ul.event-wrapper` opens an
/// event, `div.event-title…` announces its title run, `a[href]` opens a
/// document, `div.title` and `span.date-display-single` announce the
/// document's title and date runs, and a date run completes the
/// document. Blank runs are skipped and unknown tags are ignored.
pub open spec fn spec_step(m: ParserModel, t: TokenModel) -> ParserModel {
    match t {
        TokenModel::StartTag { name, class, href } => {
            if name == "ul"@ {
                if class == Some("event-wrapper"@) {
                    ParserModel { state: ParserState::BeginEvent, ..m }
                } else {
                    m
                }
            } else if name == "a"@ {
                if m.state == ParserState::Next {
                    match href {
                        Some(h) => (ParserModel {
                            state: ParserState::Document,
                            document: Some(
                                DocModel {
                                    url: Some(spec_base_url() + spec_encode_spaces(spec_trim(h))),
                                    title: None,
                                    date: None,
                                },
                            ),
                            ..m
                        }),
                        None => m,
                    }
                } else {
                    m
                }
            } else if name == "div"@ {
                match class {
                    Some(cl) => {
                        if m.state == ParserState::BeginEvent && spec_has_prefix(
                            cl,
                            "event-title"@,
                        ) {
                            ParserModel { state: ParserState::EventTitle, ..m }
                        } else if m.state == ParserState::Document && cl == "title"@ {
                            ParserModel { state: ParserState::DocumentTitle, ..m }
                        } else {
                            m
                        }
                    },
                    None => m,
                }
            } else if name == "span"@ {
                if m.state == ParserState::Document && class == Some("date-display-single"@) {
                    ParserModel { state: ParserState::DocumentDate, ..m }
                } else {
                    m
                }
            } else {
                m
            }
        },
        TokenModel::Text { text } => {
            if m.state == ParserState::EventTitle {
                if is_blank(text) {
                    m
                } else {
                    let m1 = spec_flush_event(m);
                    ParserModel {
                        state: ParserState::Next,
                        event: Some(
                            EventModel {
                                season: Some(m.season.year),
                                title: Some(spec_trim(text)),
                                documents: Seq::empty(),
                            },
                        ),
                        ..m1
                    }
                }
            } else if m.state == ParserState::DocumentTitle {
                if is_blank(text) {
                    m
                } else {
                    match m.document {
                        Some(d) => (ParserModel {
                            state: ParserState::Document,
                            document: Some(DocModel { title: Some(spec_trim(text)), ..d }),
                            ..m
                        }),
                        None => m,
                    }
                }
            } else if m.state == ParserState::DocumentDate {
                if is_blank(text) {
                    m
                } else {
                    match (m.document, m.event) {
                        (Some(d), Some(e)) => (ParserModel {
                            state: ParserState::Next,
                            document: None,
                            event: Some(
                                EventModel {
                                    documents: e.documents.push(
                                        DocModel { date: Some(spec_trim(text)), ..d },
                                    ),
                                    ..e
                                },
                            ),
                            ..m
                        }),
                        _ => m,
                    }
                }
            } else {
                m
            }
        },
        TokenModel::EndOfInput => spec_flush_event(m),
        TokenModel::Other => m,
    }
}

/// The parser as it starts on a page of the given year.
pub open spec fn spec_initial(year: int) -> ParserModel {
    ParserModel {
        state: ParserState::Idle,
        season: (SeasonModel { year: year, events: Seq::empty() }),
        event: None,
        document: None,
    }
}

/// Runs the transition relation over a whole token sequence.
pub open spec fn spec_run(m: ParserModel, ts: Seq<TokenModel>) -> ParserModel
    decreases ts.len(),
{
    if ts.len() == 0 {
        m
    } else {
        spec_run(spec_step(m, ts[0]), ts.subrange(1, ts.len() as int))
    }
}

/// What parsing a token sequence for a year returns: the season after
/// every token was consumed and the pending event was flushed.
pub open spec fn spec_parse(year: int, ts: Seq<TokenModel>) -> SeasonModel {
    spec_flush_event(spec_run(spec_initial(year), ts)).season
}

impl HTMLParser {
    /// A parser for the index page of one calendar year.
    pub fn new(year: i32) -> (p: HTMLParser)
        ensures
            p@ == spec_initial(year as int),
    {
        let p = HTMLParser {
            state: ParserState::Idle,
            season: Season { year, events: Vec::new() },
            event: None,
            document: None,
        };
        proof {
            assert(p.season.events@.map_values(|e: ParserEvent| e@) =~= Seq::<EventModel>::empty());
        }
        p
    }

    fn flush_event(&mut self)
        ensures
            final(self)@ == spec_flush_event(old(self)@),
    {
        let ev = self.event.take();
        match ev {
            Some(e) => {
                let ghost before = self.season.events@;
                self.season.events.push(e);
                proof {
                    assert(self.season.events@.map_values(|x: ParserEvent| x@) =~= before
                        .map_values(|x: ParserEvent| x@).push(e@));
                }
            },
            None => {},
        }
    }

    /// Consumes one token, following exactly the transition relation
    /// [`spec_step`].
    pub fn process_token(&mut self, token: &HtmlToken)
        ensures
            final(self)@ == spec_step(old(self)@, token@),
    {
        match token {
            HtmlToken::StartTag { name, class, href } => {
                if str_eq(name.as_str(), "ul") {
                    match class {
                        Some(cl) => {
                            if str_eq(cl.as_str(), "event-wrapper") {
                                self.state = ParserState::BeginEvent;
                            }
                        },
                        None => {},
                    }
                } else if str_eq(name.as_str(), "a") {
                    if matches!(self.state, ParserState::Next) {
                        match href {
                            Some(h) => {
                                let trimmed = trim_str(h.as_str());
                                let encoded = encode_spaces(trimmed.as_str());
                                let mut url = String::from_str("https://www.fia.com");
                                url.append(encoded.as_str());
                                self.document = Some(
                                    ParserDocument { url: Some(url), title: None, date: None },
                                );
                                self.state = ParserState::Document;
                            },
                            None => {},
                        }
                    }
                } else if str_eq(name.as_str(), "div") {
                    match class {
                        Some(cl) => {
                            if matches!(self.state, ParserState::BeginEvent) && str_has_prefix(
                                cl.as_str(),
                                "event-title",
                            ) {
                                self.state = ParserState::EventTitle;
                            } else if matches!(self.state, ParserState::Document) && str_eq(
                                cl.as_str(),
                                "title",
                            ) {
                                self.state = ParserState::DocumentTitle;
                            }
                        },
                        None => {},
                    }
                } else if str_eq(name.as_str(), "span") {
                    if matches!(self.state, ParserState::Document) {
                        match class {
                            Some(cl) => {
                                if str_eq(cl.as_str(), "date-display-single") {
                                    self.state = ParserState::DocumentDate;
                                }
                            },
                            None => {},
                        }
                    }
                }
            },
            HtmlToken::Text { text } => {
                if matches!(self.state, ParserState::EventTitle) {
                    let trimmed = trim_str(text.as_str());
                    if trimmed.unicode_len() != 0 {
                        self.flush_event();
                        let docs: Vec<ParserDocument> = Vec::new();
                        proof {
                            assert(docs@.map_values(|d: ParserDocument| d@) =~= Seq::<
                                DocModel,
                            >::empty());
                        }
                        self.event = Some(
                            ParserEvent {
                                season: Some(self.season.year),
                                title: Some(trimmed),
                                documents: docs,
                            },
                        );
                        self.state = ParserState::Next;
                    }
                } else if matches!(self.state, ParserState::DocumentTitle) {
                    let trimmed = trim_str(text.as_str());
                    if trimmed.unicode_len() != 0 {
                        match &mut self.document {
                            Some(d) => {
                                d.title = Some(trimmed);
                                self.state = ParserState::Document;
                            },
                            None => {},
                        }
                    }
                } else if matches!(self.state, ParserState::DocumentDate) {
                    let trimmed = trim_str(text.as_str());
                    if trimmed.unicode_len() != 0 {
                        let doc = self.document.take();
                        match doc {
                            Some(mut d) => {
                                match &mut self.event {
                                    Some(e) => {
                                        d.date = Some(trimmed);
                                        let ghost docs_before = e.documents@;
                                        e.documents.push(d);
                                        self.state = ParserState::Next;
                                        proof {
                                            assert(e.documents@.map_values(
                                                |x: ParserDocument| x@,
                                            ) =~= docs_before.map_values(
                                                |x: ParserDocument| x@,
                                            ).push(d@));
                                        }
                                    },
                                    None => {
                                        self.document = Some(d);
                                    },
                                }
                            },
                            None => {},
                        }
                    }
                }
            },
            HtmlToken::EndOfInput => {
                self.flush_event();
            },
            HtmlToken::Other => {},
        }
    }

    /// Ends the parse: flushes the pending event and hands the season out.
    pub fn into_season(self) -> (s: Season)
        ensures
            s@ == spec_flush_event(self@).season,
    {
        let mut p = self;
        p.flush_event();
        p.season
    }
}

/// Parses a whole token sequence for one year.
pub fn parse_tokens(year: i32, tokens: &Vec<HtmlToken>) -> (s: Season)
    ensures
        s@ == spec_parse(year as int, tokens@.map_values(|t: HtmlToken| t@)),
{
    let ghost ts = tokens@.map_values(|t: HtmlToken| t@);
    let mut p = HTMLParser::new(year);
    let n = tokens.len();
    let mut i: usize = 0;
    proof {
        assert(ts.subrange(0, ts.len() as int) =~= ts);
    }
    while i < n
        invariant
            i <= n,
            n == tokens@.len(),
            ts == tokens@.map_values(|t: HtmlToken| t@),
            spec_run(p@, ts.subrange(i as int, n as int)) == spec_run(spec_initial(year as int), ts),
        decreases n - i,
    {
        proof {
            let q = ts.subrange(i as int, n as int);
            assert(q[0] == tokens@[i as int]@);
            assert(q.subrange(1, q.len() as int) =~= ts.subrange(i + 1, n as int));
        }
        p.process_token(&tokens[i]);
        i = i + 1;
    }
    proof {
        assert(ts.subrange(n as int, n as int) =~= Seq::<TokenModel>::empty());
    }
    p.into_season()
}

/// An event begun by a title run starts with an empty document list:
/// until a document's date run completes, the event carries no
/// documents, so an event section without documents is parsed as an
/// event whose list is empty.
pub proof fn lemma_new_event_starts_empty(m: ParserModel, text: Seq<char>)
    requires
        m.state == ParserState::EventTitle,
        !is_blank(text),
    ensures
        spec_step(m, (TokenModel::Text { text })).event == Some(
            (EventModel {
                title: Some(spec_trim(text)),
                season: Some(m.season.year),
                documents: Seq::<DocModel>::empty(),
            }),
        ),
{
}

/// On an empty token sequence the parse returns the year and no events.
pub proof fn lemma_parse_empty(year: int)
    ensures
        spec_parse(year, Seq::<TokenModel>::empty()) == (SeasonModel {
            year: year,
            events: Seq::<EventModel>::empty(),
        }),
{
    assert(spec_run(spec_initial(year), Seq::<TokenModel>::empty()) == spec_initial(year));
}

} // verus!
