//! The scraper loop's logic: reconciling the parsed season index with
//! the store, and persisting each new document only after its uploads
//! succeeded.
//!
//! Downloading, uploading and rasterizing are outside work; one tick
//! takes their outcomes as inputs. The trace of a tick shows, in order,
//! what was uploaded and what was inserted, and the contract ties every
//! insert to an upload success that came before it.

use vstd::prelude::*;
use vstd::string::StringExecFns;

use crate::model::Document;
use crate::model::DocumentStatus;
use crate::model::Event;
use crate::model::EventStatus;
use crate::model::Image;
use crate::model::Series;
use crate::parser::ParserEvent;
use crate::parser::Season;
use crate::store::Store;
use crate::text::str_eq;
use crate::upload::image_url;
use crate::upload::spec_image_url;

verus! {

/// The loop-local cache of event and document rows, revalidated once a
/// day.
pub struct LocalCache {
    pub events: Vec<Event>,
    pub documents: Vec<Document>,
    pub last_populated: i64,
}

impl LocalCache {
    /// An empty cache that has never been populated.
    pub fn new() -> (c: LocalCache)
        ensures
            c.events@ == Seq::<Event>::empty(),
            c.documents@ == Seq::<Document>::empty(),
            c.last_populated == 0,
    {
        LocalCache { events: Vec::new(), documents: Vec::new(), last_populated: 0 }
    }

    /// Whether a day has passed since the cache was last populated.
    pub fn needs_refresh(&self, now: i64) -> (r: bool)
        requires
            0 <= self.last_populated,
            0 <= now,
        ensures
            r == (self.last_populated <= now && now - self.last_populated >= 86400),
    {
        self.last_populated <= now && now - self.last_populated >= 86400
    }

    /// Replaces the cache contents with freshly loaded rows.
    pub fn populate(&mut self, events: Vec<Event>, documents: Vec<Document>, now: i64)
        ensures
            final(self).events@ == events@,
            final(self).documents@ == documents@,
            final(self).last_populated == now,
    {
        self.events = events;
        self.documents = documents;
        self.last_populated = now;
    }
}

/// Whether the cache holds an event with this title and year.
pub open spec fn cache_has_event(events: Seq<Event>, title: Seq<char>, year: i32) -> bool {
    exists|j: int|
        0 <= j < events.len() && (#[trigger] events[j]).title@ == title && events[j].year == year
}

/// Whether the cache holds a document with this upstream URL.
pub open spec fn cache_has_doc(docs: Seq<Document>, href: Seq<char>) -> bool {
    exists|j: int| 0 <= j < docs.len() && (#[trigger] docs[j]).href@ == href
}

/// Looks an event up in the cache by `(title, year)` and returns its id.
pub fn find_cached_event(events: &Vec<Event>, title: &str, year: i32) -> (r: Option<u64>)
    ensures
        match r {
            Some(id) => exists|j: int|
                0 <= j < events@.len() && (#[trigger] events@[j]).title@ == title@
                    && events@[j].year == year && events@[j].id == id,
            None => !cache_has_event(events@, title@, year),
        },
{
    let n = events.len();
    let mut i: usize = 0;
    while i < n
        invariant
            i <= n,
            n == events@.len(),
            forall|j: int|
                0 <= j < i ==> !((#[trigger] events@[j]).title@ == title@ && events@[j].year
                    == year),
        decreases n - i,
    {
        if events[i].year == year && str_eq(events[i].title.as_str(), title) {
            return Some(events[i].id);
        }
        i = i + 1;
    }
    None
}

/// Whether the cache already has a document with this URL.
pub fn cache_has_document(docs: &Vec<Document>, href: &str) -> (r: bool)
    ensures
        r == cache_has_doc(docs@, href@),
{
    let n = docs.len();
    let mut i: usize = 0;
    while i < n
        invariant
            i <= n,
            n == docs@.len(),
            forall|j: int| 0 <= j < i ==> (#[trigger] docs@[j]).href@ != href@,
        decreases n - i,
    {
        if str_eq(docs[i].href.as_str(), href) {
            return true;
        }
        i = i + 1;
    }
    false
}

/// What the outside world returned for one document: whether its PDF
/// download succeeded, the resolved mirror URL of a successful mirror
/// upload, how many pages the rasterizer produced, and whether each
/// page's upload succeeded.
pub struct DocOutcome {
    pub download_ok: bool,
    pub mirror: Option<String>,
    pub page_count: Option<u64>,
    pub image_ok: Vec<bool>,
}

/// A document is persisted only when every step of it succeeded and
/// the rasterizer produced at least one page.
pub open spec fn doc_outcome_success(o: DocOutcome) -> bool {
    &&& o.download_ok
    &&& o.mirror is Some
    &&& match o.page_count {
        Some(n) => 1 <= n && n as int <= o.image_ok@.len() && (forall|k: int|
            0 <= k < n as int ==> o.image_ok@[k]),
        None => false,
    }
}

pub open spec fn all_outcomes_succeed(outcomes: Seq<DocOutcome>) -> bool {
    forall|oi: int| 0 <= oi < outcomes.len() ==> doc_outcome_success(#[trigger] outcomes[oi])
}

/// The rasterizer never reports more than 101 pages.
pub open spec fn outcome_pages_bounded(o: DocOutcome) -> bool {
    match o.page_count {
        Some(n) => n <= 101,
        None => true,
    }
}

/// A shutdown poll sequence where the flag is never set.
pub open spec fn never_stopped(stop: Seq<bool>) -> bool {
    forall|p: int| 0 <= p < stop.len() ==> !stop[p]
}

/// Reads the next shutdown poll; polls past the given sequence read the
/// flag as unset.
fn poll_stop(stop: &Vec<bool>, ix: &mut usize) -> (r: bool)
    ensures
        r == (*old(ix) < stop@.len() && stop@[*old(ix) as int]),
        *final(ix) == if *old(ix) < stop@.len() {
            *old(ix) + 1
        } else {
            *old(ix) as int
        },
{
    if *ix < stop.len() {
        let r = stop[*ix];
        *ix = *ix + 1;
        r
    } else {
        false
    }
}

/// The index page the scraper reads for one series.
pub open spec fn spec_series_docs_url(series: Series) -> Seq<char> {
    match series {
        Series::F1 => "https://www.fia.com/documents/championships/fia-formula-one-world-championship-14/season/season-2024-2043"@,
        Series::F2 => "https://www.fia.com/documents/season/season-2024-2043/championships/formula-2-championship-44"@,
        Series::F3 => "https://www.fia.com/documents/season/season-2024-2043/championships/fia-formula-3-championship-1012"@,
        Series::F1Academy => Seq::<char>::empty(),
    }
}

/// The fixed index URL of one supported series.
pub fn series_docs_url(series: Series) -> (r: &'static str)
    requires
        series.spec_supported(),
    ensures
        r@ == spec_series_docs_url(series),
{
    match series {
        Series::F1 => "https://www.fia.com/documents/championships/fia-formula-one-world-championship-14/season/season-2024-2043",
        Series::F2 => "https://www.fia.com/documents/season/season-2024-2043/championships/formula-2-championship-44",
        Series::F3 => "https://www.fia.com/documents/season/season-2024-2043/championships/fia-formula-3-championship-1012",
        Series::F1Academy => "",
    }
}

/// What one scraper tick did, in order.
pub enum ScrapeAction {
    EventInserted { event_id: u64, title: String },
    PdfDownloaded { href: String },
    MirrorUploaded { href: String, url: String },
    DocumentInserted { document_id: u64, href: String },
    ImageUploaded { document_id: u64, page: u64 },
    ImageInserted { document_id: u64, page: u64 },
    DocumentReady { document_id: u64 },
}

pub open spec fn mirror_uploaded_for(a: ScrapeAction, href: String) -> bool {
    match a {
        ScrapeAction::MirrorUploaded { href: h, url } => h == href,
        _ => false,
    }
}

/// What each recorded outside step claims: a download or upload action
/// is backed by an outcome that reports that step's success, and no
/// step is recorded for an href the cache already knew.
pub open spec fn scrape_action_ok(
    a: ScrapeAction,
    outcomes: Seq<DocOutcome>,
    pre_cache_docs: Seq<Document>,
) -> bool {
    match a {
        ScrapeAction::PdfDownloaded { href } => (exists|oi: int|
            0 <= oi < outcomes.len() && (#[trigger] outcomes[oi]).download_ok) && !cache_has_doc(
            pre_cache_docs,
            href@,
        ),
        ScrapeAction::MirrorUploaded { href, url } => (exists|oi: int|
            0 <= oi < outcomes.len() && (#[trigger] outcomes[oi]).download_ok && outcomes[oi].mirror
                == Some(url)) && !cache_has_doc(pre_cache_docs, href@),
        ScrapeAction::ImageUploaded { document_id, page } => exists|oi: int|
            0 <= oi < outcomes.len() && match (#[trigger] outcomes[oi]).page_count {
                Some(n) => page < n && (page as int) < outcomes[oi].image_ok@.len()
                    && outcomes[oi].image_ok@[page as int],
                None => false,
            },
        _ => true,
    }
}

/// The ordering guarantee of a scraper trace: a document row is
/// recorded only after its mirror upload succeeded, and an image row
/// only after its page upload succeeded.
pub open spec fn inserts_after_uploads(tr: Seq<ScrapeAction>) -> bool {
    forall|i: int|
        0 <= i < tr.len() ==> match #[trigger] tr[i] {
            ScrapeAction::DocumentInserted { document_id, href } => exists|j: int|
                0 <= j < i && mirror_uploaded_for(#[trigger] tr[j], href),
            ScrapeAction::ImageInserted { document_id, page } => exists|j: int|
                0 <= j < i && #[trigger] tr[j] == (ScrapeAction::ImageUploaded {
                    document_id,
                    page,
                }),
            _ => true,
        }
}

/// Appending an action keeps the trace ordering, provided an insert's
/// upload already stands in the trace.
pub proof fn lemma_trace_push(tr: Seq<ScrapeAction>, a: ScrapeAction)
    requires
        inserts_after_uploads(tr),
        match a {
            ScrapeAction::DocumentInserted { document_id, href } => exists|j: int|
                0 <= j < tr.len() && mirror_uploaded_for(#[trigger] tr[j], href),
            ScrapeAction::ImageInserted { document_id, page } => exists|j: int|
                0 <= j < tr.len() && #[trigger] tr[j] == (ScrapeAction::ImageUploaded {
                    document_id,
                    page,
                }),
            _ => true,
        },
    ensures
        inserts_after_uploads(tr.push(a)),
{
    let tr2 = tr.push(a);
    assert forall|i: int| 0 <= i < tr2.len() implies match #[trigger] tr2[i] {
        ScrapeAction::DocumentInserted { document_id, href } => exists|j: int|
            0 <= j < i && mirror_uploaded_for(#[trigger] tr2[j], href),
        ScrapeAction::ImageInserted { document_id, page } => exists|j: int|
            0 <= j < i && #[trigger] tr2[j] == (ScrapeAction::ImageUploaded { document_id, page }),
        _ => true,
    } by {
        if i < tr.len() {
            match tr[i] {
                ScrapeAction::DocumentInserted { document_id, href } => {
                    let j = choose|j: int| 0 <= j < i && mirror_uploaded_for(#[trigger] tr[j], href);
                    assert(tr2[j] == tr[j]);
                },
                ScrapeAction::ImageInserted { document_id, page } => {
                    let j = choose|j: int|
                        0 <= j < i && #[trigger] tr[j] == (ScrapeAction::ImageUploaded {
                            document_id,
                            page,
                        });
                    assert(tr2[j] == tr[j]);
                },
                _ => {},
            }
        } else {
            match a {
                ScrapeAction::DocumentInserted { document_id, href } => {
                    let j = choose|j: int|
                        0 <= j < tr.len() && mirror_uploaded_for(#[trigger] tr[j], href);
                    assert(tr2[j] == tr[j]);
                },
                ScrapeAction::ImageInserted { document_id, page } => {
                    let j = choose|j: int|
                        0 <= j < tr.len() && #[trigger] tr[j] == (ScrapeAction::ImageUploaded {
                            document_id,
                            page,
                        });
                    assert(tr2[j] == tr[j]);
                },
                _ => {},
            }
        }
    }
}

/// How many documents the first `i` events of the season carry.
pub open spec fn doc_count_upto(events: Seq<ParserEvent>, i: int) -> int
    decreases i,
{
    if i <= 0 {
        0
    } else {
        doc_count_upto(events, i - 1) + events[i - 1].documents@.len()
    }
}

/// All documents of the season.
pub open spec fn season_doc_count(events: Seq<ParserEvent>) -> int {
    doc_count_upto(events, events.len() as int)
}

pub proof fn lemma_doc_count_mono(events: Seq<ParserEvent>, i: int, j: int)
    requires
        0 <= i <= j,
    ensures
        doc_count_upto(events, i) <= doc_count_upto(events, j),
        doc_count_upto(events, i) >= 0,
    decreases j,
{
    if i < j {
        lemma_doc_count_mono(events, i, j - 1);
    } else if i > 0 {
        lemma_doc_count_mono(events, i - 1, i - 1);
    }
}

/// Handles one new document of one event. It is persisted if and only
/// if every outside step succeeded: the PDF downloaded, the mirror
/// upload returned a URL, the rasterizer produced pages and every page
/// upload succeeded. On success the document row, its image rows and
/// its `ReadyToPost` mark are recorded and the cache learns the href;
/// on any failure nothing is persisted, so the next tick retries.
pub fn process_document(
    store: &mut Store,
    cache_docs: &mut Vec<Document>,
    event_id: u64,
    event_title: &String,
    dtitle: &String,
    durl: &String,
    outcome: &DocOutcome,
    year: i32,
    now: i64,
    actions: &mut Vec<ScrapeAction>,
) -> (processed: bool)
    requires
        old(store).wf(),
        year >= 0,
        outcome_pages_bounded(*outcome),
        old(store).next_id as int + 102 <= u64::MAX as int,
        inserts_after_uploads(old(actions)@),
    ensures
        final(store).wf(),
        final(store).events@ == old(store).events@,
        final(store).guilds@ == old(store).guilds@,
        final(store).threads@ == old(store).threads@,
        final(store).allow_requests@ == old(store).allow_requests@,
        final(store).documents@.len() == old(store).documents@.len() + (if processed {
            1int
        } else {
            0int
        }),
        forall|k: int|
            0 <= k < old(store).documents@.len() ==> final(store).documents@[k] == old(
                store,
            ).documents@[k],
        processed ==> final(store).documents@.last().status == DocumentStatus::ReadyToPost,
        processed ==> final(store).documents@.last().href == *durl,
        processed ==> final(store).documents@.last().title == *dtitle,
        processed ==> final(store).documents@.last().event_id == event_id,
        processed ==> final(store).documents@.last().id == old(store).next_id,
        processed ==> match outcome.mirror {
            Some(m) => final(store).documents@.last().mirror == m,
            None => false,
        },
        final(store).images@.len() >= old(store).images@.len(),
        forall|k: int|
            0 <= k < old(store).images@.len() ==> final(store).images@[k] == old(store).images@[k],
        forall|k: int|
            old(store).images@.len() <= k < final(store).images@.len() ==> (
            #[trigger] final(store).images@[k]).document_id == old(store).next_id && processed,
        processed ==> match outcome.page_count {
            Some(n) => final(store).images@.len() == old(store).images@.len() + n as int,
            None => false,
        },
        processed ==> forall|p: int|
            old(store).images@.len() <= p < final(store).images@.len() ==> (
            #[trigger] final(store).images@[p]).page_number as int == p - old(
                store,
            ).images@.len() && final(store).images@[p].url@ == spec_image_url(
                year as int,
                event_title@,
                old(store).next_id as int,
                p - old(store).images@.len(),
            ),
        !processed ==> final(store).images@.len() == old(store).images@.len(),
        processed ==> final(store).next_id as int == old(store).next_id as int + 1
            + final(store).images@.len() - old(store).images@.len(),
        !processed ==> final(store).next_id == old(store).next_id,
        final(store).next_id as int <= old(store).next_id as int + 102,
        final(cache_docs)@.len() == old(cache_docs)@.len() + (if processed {
            1int
        } else {
            0int
        }),
        forall|k: int|
            0 <= k < old(cache_docs)@.len() ==> final(cache_docs)@[k] == old(cache_docs)@[k],
        processed ==> final(cache_docs)@.last().href == *durl,
        final(actions)@.len() >= old(actions)@.len(),
        forall|k: int| 0 <= k < old(actions)@.len() ==> final(actions)@[k] == old(actions)@[k],
        inserts_after_uploads(final(actions)@),
        forall|ai: int|
            old(actions)@.len() <= ai < final(actions)@.len() ==> match (
            #[trigger] final(actions)@[ai]) {
                ScrapeAction::PdfDownloaded { href } => outcome.download_ok && href == *durl,
                ScrapeAction::MirrorUploaded { href, url } => outcome.download_ok
                    && outcome.mirror == Some(url) && href == *durl,
                ScrapeAction::ImageUploaded { document_id, page } => document_id == old(
                    store,
                ).next_id && match outcome.page_count {
                    Some(n) => page < n && (page as int) < outcome.image_ok@.len()
                        && outcome.image_ok@[page as int],
                    None => false,
                },
                ScrapeAction::DocumentInserted { document_id, href } => processed && document_id
                    == old(store).next_id && href == *durl,
                ScrapeAction::ImageInserted { document_id, page } => processed && document_id
                    == old(store).next_id && match outcome.page_count {
                    Some(n) => page < n,
                    None => false,
                },
                ScrapeAction::DocumentReady { document_id } => processed && document_id == old(
                    store,
                ).next_id,
                ScrapeAction::EventInserted { event_id, title } => false,
            },
        processed == doc_outcome_success(*outcome),
{
    if !outcome.download_ok {
        return false;
    }
    let ghost tr0 = actions@;
    actions.push(ScrapeAction::PdfDownloaded { href: durl.clone() });
    proof {
        lemma_trace_push(tr0, actions@.last());
    }
    let murl = match &outcome.mirror {
        None => {
            return false;
        },
        Some(m) => m,
    };
    let ghost tr1 = actions@;
    actions.push(ScrapeAction::MirrorUploaded { href: durl.clone(), url: murl.clone() });
    proof {
        lemma_trace_push(tr1, actions@.last());
    }
    let n: u64 = match outcome.page_count {
        None => {
            return false;
        },
        Some(n) => n,
    };
    let nn = n as usize;
    if nn == 0 || nn > outcome.image_ok.len() {
        return false;
    }
    let mut k: usize = 0;
    while k < nn
        invariant
            k <= nn,
            nn == n as int,
            nn <= outcome.image_ok@.len(),
            forall|j: int| 0 <= j < k ==> outcome.image_ok@[j],
            outcome.page_count == Some(n),
            store.wf(),
            store.events@ == old(store).events@,
            store.documents@ == old(store).documents@,
            store.images@ == old(store).images@,
            store.guilds@ == old(store).guilds@,
            store.threads@ == old(store).threads@,
            store.allow_requests@ == old(store).allow_requests@,
            store.next_id == old(store).next_id,
            cache_docs@ == old(cache_docs)@,
            actions@.len() >= old(actions)@.len(),
            forall|j: int| 0 <= j < old(actions)@.len() ==> actions@[j] == old(actions)@[j],
            inserts_after_uploads(actions@),
            forall|ai: int|
                old(actions)@.len() <= ai < actions@.len() ==> match (#[trigger] actions@[ai]) {
                    ScrapeAction::PdfDownloaded { href } => outcome.download_ok && href == *durl,
                    ScrapeAction::MirrorUploaded { href, url } => outcome.download_ok
                        && outcome.mirror == Some(url) && href == *durl,
                    _ => false,
                },
        decreases nn - k,
    {
        if !outcome.image_ok[k] {
            return false;
        }
        k = k + 1;
    }
    proof {
        assert(doc_outcome_success(*outcome));
    }
    let doc_id = store.insert_document(
        event_id,
        dtitle.clone(),
        durl.clone(),
        murl.clone(),
        now,
    );
    let ghost tr2 = actions@;
    actions.push(ScrapeAction::DocumentInserted { document_id: doc_id, href: durl.clone() });
    proof {
        match actions@.last() {
            ScrapeAction::DocumentInserted { document_id: did2, href: h2 } => {
                assert(h2 == *durl);
                assert(mirror_uploaded_for(tr2[tr1.len() as int], h2));
            },
            _ => {},
        }
        lemma_trace_push(tr2, actions@.last());
    }
    cache_docs.push(
        Document {
            id: doc_id,
            event_id,
            title: dtitle.clone(),
            href: durl.clone(),
            mirror: murl.clone(),
            status: DocumentStatus::Initial,
            created_at: now,
        },
    );
    let ghost store_after_doc = *store;
    let mut p: u64 = 0;
    while p < n
        invariant
            p <= n,
            n <= 101,
            year >= 0,
            store_after_doc.wf(),
            store.wf(),
            doc_id == store_after_doc.next_id - 1,
            store_after_doc.next_id as int + 101 <= u64::MAX as int,
            store.events@ == store_after_doc.events@,
            store.guilds@ == store_after_doc.guilds@,
            store.threads@ == store_after_doc.threads@,
            store.allow_requests@ == store_after_doc.allow_requests@,
            store.documents@ == store_after_doc.documents@,
            store.images@.len() == store_after_doc.images@.len() + p as int,
            forall|j: int|
                0 <= j < store_after_doc.images@.len() ==> store.images@[j]
                    == store_after_doc.images@[j],
            forall|j: int|
                store_after_doc.images@.len() <= j < store.images@.len() ==> (
                #[trigger] store.images@[j]).document_id == doc_id && store.images@[j].page_number
                    as int == j - store_after_doc.images@.len() && store.images@[j].url@
                    == crate::upload::spec_image_url(
                    year as int,
                    event_title@,
                    doc_id as int,
                    j - store_after_doc.images@.len(),
                ),
            store.next_id as int == store_after_doc.next_id as int + p as int,
            actions@.len() >= tr0.len(),
            forall|j: int| 0 <= j < tr0.len() ==> actions@[j] == tr0[j],
            inserts_after_uploads(actions@),
            outcome.download_ok,
            outcome.page_count == Some(n),
            n as int <= outcome.image_ok@.len(),
            forall|j: int| 0 <= j < n as int ==> outcome.image_ok@[j],
            forall|ai: int|
                old(actions)@.len() <= ai < actions@.len() ==> match (#[trigger] actions@[ai]) {
                    ScrapeAction::PdfDownloaded { href } => outcome.download_ok && href == *durl,
                    ScrapeAction::MirrorUploaded { href, url } => outcome.download_ok
                        && outcome.mirror == Some(url) && href == *durl,
                    ScrapeAction::ImageUploaded { document_id, page } => document_id == doc_id
                        && page < n && (page as int) < outcome.image_ok@.len()
                        && outcome.image_ok@[page as int],
                    ScrapeAction::DocumentInserted { document_id, href } => document_id == doc_id
                        && href == *durl,
                    ScrapeAction::ImageInserted { document_id, page } => document_id == doc_id
                        && page < n,
                    _ => false,
                },
        decreases n - p,
    {
        let url = image_url(year, event_title.as_str(), doc_id, p);
        let ghost tr3 = actions@;
        actions.push(ScrapeAction::ImageUploaded { document_id: doc_id, page: p });
        proof {
            lemma_trace_push(tr3, actions@.last());
        }
        store.insert_image(doc_id, p, url, now);
        let ghost tr4 = actions@;
        actions.push(ScrapeAction::ImageInserted { document_id: doc_id, page: p });
        proof {
            assert(tr4[tr4.len() - 1] == (ScrapeAction::ImageUploaded {
                document_id: doc_id,
                page: p,
            }));
            lemma_trace_push(tr4, actions@.last());
        }
        p = p + 1;
    }
    let ghost docs_before_mark = store.documents@;
    store.update_document_status(doc_id, DocumentStatus::ReadyToPost);
    proof {
        assert forall|j: int| 0 <= j < docs_before_mark.len() - 1 implies store.documents@[j]
            == docs_before_mark[j] by {
            assert(docs_before_mark[j] == old(store).documents@[j]);
            assert(old(store).documents@[j].id < old(store).next_id);
        }
        assert(store.documents@.last().status == DocumentStatus::ReadyToPost);
        assert(store.documents@.last().href == docs_before_mark.last().href);
    }
    let ghost tr5 = actions@;
    actions.push(ScrapeAction::DocumentReady { document_id: doc_id });
    proof {
        lemma_trace_push(tr5, actions@.last());
    }
    true
}

/// An event row the tick inserted: freshly discovered on the index,
/// opened as `NotAllowed` for this series and year, and absent from the
/// cache the tick started with.
pub open spec fn new_scraped_event_ok(
    e: Event,
    events: Seq<ParserEvent>,
    series: Series,
    year: i32,
    pre_cache_events: Seq<Event>,
) -> bool {
    &&& e.status == EventStatus::NotAllowed
    &&& e.series == series
    &&& e.year == year
    &&& exists|ei: int| 0 <= ei < events.len() && (#[trigger] events[ei]).title == Some(e.title)
    &&& !cache_has_event(pre_cache_events, e.title@, year)
}

/// A document row the tick inserted: it carries a season href that the
/// cache did not know, its mirror is a URL some upload outcome
/// returned, and it was left `ReadyToPost`.
pub open spec fn new_scraped_doc_ok(
    d: Document,
    events: Seq<ParserEvent>,
    pre_cache_docs: Seq<Document>,
    outcomes: Seq<DocOutcome>,
) -> bool {
    &&& d.status == DocumentStatus::ReadyToPost
    &&& exists|ei: int, di: int|
        #![trigger events[ei].documents@[di]]
        0 <= ei < events.len() && events[ei].title is Some && 0 <= di
            < events[ei].documents@.len() && events[ei].documents@[di].title is Some
            && events[ei].documents@[di].url == Some(d.href)
    &&& exists|oi: int| 0 <= oi < outcomes.len() && (#[trigger] outcomes[oi]).mirror == Some(
        d.mirror,
    )
    &&& !cache_has_doc(pre_cache_docs, d.href@)
}

/// A fresh `NotAllowed` event row for this title stands in the region
/// the tick appended.
pub open spec fn new_event_row_for(
    pre_len: int,
    events: Seq<Event>,
    title: Seq<char>,
    year: i32,
) -> bool {
    exists|k: int|
        pre_len <= k < events.len() && (#[trigger] events[k]).title@ == title && events[k].year
            == year && events[k].status == EventStatus::NotAllowed
}

/// A fresh `ReadyToPost` document row for this href stands in the
/// region the tick appended.
pub open spec fn new_doc_row_for(pre_len: int, docs: Seq<Document>, href: Seq<char>) -> bool {
    exists|k: int|
        pre_len <= k < docs.len() && (#[trigger] docs[k]).href@ == href && docs[k].status
            == DocumentStatus::ReadyToPost
}

/// An appended page-0 image row for this document exists.
pub open spec fn new_page0_image_for(pre_len: int, images: Seq<Image>, document_id: u64) -> bool {
    exists|k: int|
        pre_len <= k < images.len() && (#[trigger] images[k]).document_id == document_id
            && images[k].page_number == 0
}

/// An image row carries the canonical page URL for some season event
/// title, its own document id and its own page number.
pub open spec fn image_row_shaped(im: Image, events: Seq<ParserEvent>, year: i32) -> bool {
    exists|ei: int|
        0 <= ei < events.len() && match (#[trigger] events[ei]).title {
            Some(t) => im.url@ == crate::upload::spec_image_url(
                year as int,
                t@,
                im.document_id as int,
                im.page_number as int,
            ),
            None => false,
        }
}

proof fn lemma_new_event_row_extends(
    pre_len: int,
    a: Seq<Event>,
    b: Seq<Event>,
    title: Seq<char>,
    year: i32,
)
    requires
        b.len() >= a.len(),
        forall|k: int| 0 <= k < a.len() ==> b[k] == a[k],
        new_event_row_for(pre_len, a, title, year),
        pre_len >= 0,
    ensures
        new_event_row_for(pre_len, b, title, year),
{
    let k = choose|k: int|
        pre_len <= k < a.len() && (#[trigger] a[k]).title@ == title && a[k].year == year
            && a[k].status == EventStatus::NotAllowed;
    assert(b[k] == a[k]);
}

proof fn lemma_new_doc_row_extends(pre_len: int, a: Seq<Document>, b: Seq<Document>, href: Seq<char>)
    requires
        b.len() >= a.len(),
        forall|k: int| 0 <= k < a.len() ==> b[k] == a[k],
        new_doc_row_for(pre_len, a, href),
        pre_len >= 0,
    ensures
        new_doc_row_for(pre_len, b, href),
{
    let k = choose|k: int|
        pre_len <= k < a.len() && (#[trigger] a[k]).href@ == href && a[k].status
            == DocumentStatus::ReadyToPost;
    assert(b[k] == a[k]);
}

proof fn lemma_page0_image_extends(pre_len: int, a: Seq<Image>, b: Seq<Image>, document_id: u64)
    requires
        b.len() >= a.len(),
        forall|k: int| 0 <= k < a.len() ==> b[k] == a[k],
        new_page0_image_for(pre_len, a, document_id),
        pre_len >= 0,
    ensures
        new_page0_image_for(pre_len, b, document_id),
{
    let k = choose|k: int|
        pre_len <= k < a.len() && (#[trigger] a[k]).document_id == document_id && a[k].page_number
            == 0;
    assert(b[k] == a[k]);
}

/// The conditions under which a tick processes the whole season: the
/// shutdown flag never fires and every outside step succeeds.
pub open spec fn full_run(stop: Seq<bool>, outcomes: Seq<DocOutcome>, events: Seq<ParserEvent>) -> bool {
    &&& never_stopped(stop)
    &&& all_outcomes_succeed(outcomes)
    &&& outcomes.len() >= season_doc_count(events)
}

/// Whether a season event's title is known to the cache.
pub open spec fn event_title_cached(pe: ParserEvent, cache_events: Seq<Event>, year: i32) -> bool {
    match pe.title {
        Some(t) => cache_has_event(cache_events, t@, year),
        None => true,
    }
}

/// Whether a season document's href is known to the cache.
pub open spec fn doc_href_cached(pd: crate::parser::ParserDocument, cache_docs: Seq<Document>) -> bool {
    match (pd.title, pd.url) {
        (Some(t), Some(u)) => cache_has_doc(cache_docs, u@),
        _ => true,
    }
}

proof fn lemma_cache_has_event_extends(a: Seq<Event>, b: Seq<Event>, title: Seq<char>, year: i32)
    requires
        b.len() >= a.len(),
        forall|k: int| 0 <= k < a.len() ==> b[k] == a[k],
        cache_has_event(a, title, year),
    ensures
        cache_has_event(b, title, year),
{
    let w = choose|w: int|
        0 <= w < a.len() && (#[trigger] a[w]).title@ == title && a[w].year == year;
    assert(b[w] == a[w]);
}

proof fn lemma_cache_has_doc_extends(a: Seq<Document>, b: Seq<Document>, href: Seq<char>)
    requires
        b.len() >= a.len(),
        forall|k: int| 0 <= k < a.len() ==> b[k] == a[k],
        cache_has_doc(a, href),
    ensures
        cache_has_doc(b, href),
{
    let w = choose|w: int| 0 <= w < a.len() && (#[trigger] a[w]).href@ == href;
    assert(b[w] == a[w]);
}

/// One scraper pass over the parsed season of one series. Outcomes of
/// the outside steps arrive as inputs, one entry per new document, and
/// the shutdown flag's poll results as a sequence.
///
/// The contract works in both directions. Every inserted row is
/// justified: it carries an index entry the cache did not know, a
/// mirror URL some outcome returned, canonical page-image URLs with a
/// page 0 and ascending pages, no duplicate titles or hrefs, and every
/// trace entry is backed by an outcome and ordered uploads-before-
/// inserts. And the tick owes its work: a never-stopped run leaves an
/// event row for every uncached index title, and a never-stopped,
/// all-successful run leaves a `ReadyToPost` document row for every
/// uncached href, with everything learned by the cache.
pub fn scraper_tick(
    store: &mut Store,
    cache: &mut LocalCache,
    season: &Season,
    series: Series,
    year: i32,
    now: i64,
    outcomes: &Vec<DocOutcome>,
    stop: &Vec<bool>,
) -> (actions: Vec<ScrapeAction>)
    requires
        old(store).wf(),
        series.spec_supported(),
        year >= 0,
        forall|oi: int| 0 <= oi < outcomes@.len() ==> outcome_pages_bounded(#[trigger] outcomes@[oi]),
        old(store).next_id as int + season.events@.len() + season_doc_count(season.events@) * 102
            <= u64::MAX as int,
    ensures
        final(store).wf(),
        final(store).guilds@ == old(store).guilds@,
        final(store).threads@ == old(store).threads@,
        final(store).allow_requests@ == old(store).allow_requests@,
        final(store).events@.len() >= old(store).events@.len(),
        forall|k: int|
            0 <= k < old(store).events@.len() ==> final(store).events@[k] == old(store).events@[k],
        forall|k: int|
            old(store).events@.len() <= k < final(store).events@.len() ==> new_scraped_event_ok(
                #[trigger] final(store).events@[k],
                season.events@,
                series,
                year,
                old(cache).events@,
            ),
        final(store).documents@.len() >= old(store).documents@.len(),
        forall|k: int|
            0 <= k < old(store).documents@.len() ==> final(store).documents@[k] == old(
                store,
            ).documents@[k],
        forall|k: int|
            old(store).documents@.len() <= k < final(store).documents@.len()
                ==> new_scraped_doc_ok(
                #[trigger] final(store).documents@[k],
                season.events@,
                old(cache).documents@,
                outcomes@,
            ),
        final(store).images@.len() >= old(store).images@.len(),
        forall|k: int|
            0 <= k < old(store).images@.len() ==> final(store).images@[k] == old(store).images@[k],
        final(store).documents@.len() == old(store).documents@.len() ==> final(store).images@.len()
            == old(store).images@.len(),
        inserts_after_uploads(actions@),
        forall|ai: int|
            0 <= ai < actions@.len() ==> scrape_action_ok(
                #[trigger] actions@[ai],
                outcomes@,
                old(cache).documents@,
            ),
        final(cache).events@.len() >= old(cache).events@.len(),
        forall|k: int|
            0 <= k < old(cache).events@.len() ==> final(cache).events@[k] == old(cache).events@[k],
        final(cache).documents@.len() >= old(cache).documents@.len(),
        forall|k: int|
            0 <= k < old(cache).documents@.len() ==> final(cache).documents@[k] == old(
                cache,
            ).documents@[k],
        never_stopped(stop@) ==> forall|ei: int|
            0 <= ei < season.events@.len() ==> event_title_cached(
                #[trigger] season.events@[ei],
                final(cache).events@,
                year,
            ),
        never_stopped(stop@) ==> forall|ei: int|
            0 <= ei < season.events@.len() ==> match (#[trigger] season.events@[ei]).title {
                Some(t) => cache_has_event(old(cache).events@, t@, year) || new_event_row_for(
                    old(store).events@.len() as int,
                    final(store).events@,
                    t@,
                    year,
                ),
                None => true,
            },
        full_run(stop@, outcomes@, season.events@) ==> forall|ei: int, di: int|
            #![trigger season.events@[ei].documents@[di]]
            0 <= ei < season.events@.len() && season.events@[ei].title is Some && 0 <= di
                < season.events@[ei].documents@.len() ==> doc_href_cached(
                season.events@[ei].documents@[di],
                final(cache).documents@,
            ),
        full_run(stop@, outcomes@, season.events@) ==> forall|ei: int, di: int|
            #![trigger season.events@[ei].documents@[di]]
            0 <= ei < season.events@.len() && season.events@[ei].title is Some && 0 <= di
                < season.events@[ei].documents@.len() ==> match (
            season.events@[ei].documents@[di].title,
            season.events@[ei].documents@[di].url,
            ) {
                (Some(t2), Some(u)) => cache_has_doc(old(cache).documents@, u@) || new_doc_row_for(
                    old(store).documents@.len() as int,
                    final(store).documents@,
                    u@,
                ),
                _ => true,
            },
        forall|k1: int, k2: int|
            old(store).events@.len() <= k1 < k2 < final(store).events@.len() ==> (
            #[trigger] final(store).events@[k1]).title@ != (
            #[trigger] final(store).events@[k2]).title@,
        forall|k1: int, k2: int|
            old(store).documents@.len() <= k1 < k2 < final(store).documents@.len() ==> (
            #[trigger] final(store).documents@[k1]).href@ != (
            #[trigger] final(store).documents@[k2]).href@,
        forall|k: int|
            old(store).images@.len() <= k < final(store).images@.len() ==> image_row_shaped(
                #[trigger] final(store).images@[k],
                season.events@,
                year,
            ),
        forall|k: int|
            old(store).documents@.len() <= k < final(store).documents@.len()
                ==> new_page0_image_for(
                old(store).images@.len() as int,
                final(store).images@,
                (#[trigger] final(store).documents@[k]).id,
            ),
        forall|k1: int, k2: int|
            old(store).images@.len() <= k1 < k2 < final(store).images@.len() && (
            #[trigger] final(store).images@[k1]).document_id == (
            #[trigger] final(store).images@[k2]).document_id
                ==> final(store).images@[k1].page_number < final(store).images@[k2].page_number,
{
    let ghost pre = *old(store);
    let ghost pre_cache_events = old(cache).events@;
    let ghost pre_cache_docs = old(cache).documents@;
    let ghost evs = season.events@;
    let ghost sdc = season_doc_count(evs);
    let mut actions: Vec<ScrapeAction> = Vec::new();
    let mut oix: usize = 0;
    let mut six: usize = 0;
    let ne = season.events.len();
    let mut i: usize = 0;
    while i < ne
        invariant
            i <= ne,
            pre.wf(),
            store.wf(),
            ne == evs.len(),
            evs == season.events@,
            series.spec_supported(),
            year >= 0,
            forall|oi: int|
                0 <= oi < outcomes@.len() ==> outcome_pages_bounded(#[trigger] outcomes@[oi]),
            sdc == season_doc_count(evs),
            pre.next_id as int + ne + sdc * 102 <= u64::MAX as int,
            store.guilds@ == pre.guilds@,
            store.threads@ == pre.threads@,
            store.allow_requests@ == pre.allow_requests@,
            store.events@.len() >= pre.events@.len(),
            forall|k: int| 0 <= k < pre.events@.len() ==> store.events@[k] == pre.events@[k],
            forall|k: int|
                pre.events@.len() <= k < store.events@.len() ==> new_scraped_event_ok(
                    #[trigger] store.events@[k],
                    evs,
                    series,
                    year,
                    pre_cache_events,
                ),
            store.documents@.len() >= pre.documents@.len(),
            forall|k: int|
                0 <= k < pre.documents@.len() ==> store.documents@[k] == pre.documents@[k],
            forall|k: int|
                pre.documents@.len() <= k < store.documents@.len() ==> new_scraped_doc_ok(
                    #[trigger] store.documents@[k],
                    evs,
                    pre_cache_docs,
                    outcomes@,
                ),
            store.images@.len() >= pre.images@.len(),
            forall|k: int| 0 <= k < pre.images@.len() ==> store.images@[k] == pre.images@[k],
            store.documents@.len() == pre.documents@.len() ==> store.images@.len()
                == pre.images@.len(),
            inserts_after_uploads(actions@),
            forall|ai: int|
                0 <= ai < actions@.len() ==> scrape_action_ok(
                    #[trigger] actions@[ai],
                    outcomes@,
                    pre_cache_docs,
                ),
            cache.events@.len() >= pre_cache_events.len(),
            forall|k: int| 0 <= k < pre_cache_events.len() ==> cache.events@[k] == pre_cache_events[k],
            cache.documents@.len() >= pre_cache_docs.len(),
            forall|k: int|
                0 <= k < pre_cache_docs.len() ==> cache.documents@[k] == pre_cache_docs[k],
            store.next_id as int <= pre.next_id as int + i + doc_count_upto(evs, i as int) * 102,
            oix as int <= doc_count_upto(evs, i as int),
            never_stopped(stop@) ==> forall|ei: int|
                0 <= ei < i ==> event_title_cached(#[trigger] evs[ei], cache.events@, year),
            full_run(stop@, outcomes@, evs) ==> forall|ei: int, di: int|
                #![trigger evs[ei].documents@[di]]
                0 <= ei < i && evs[ei].title is Some && 0 <= di < evs[ei].documents@.len()
                    ==> doc_href_cached(evs[ei].documents@[di], cache.documents@),
            forall|k1: int, k2: int|
                pre.events@.len() <= k1 < k2 < store.events@.len() ==> (
                #[trigger] store.events@[k1]).title@ != (#[trigger] store.events@[k2]).title@,
            forall|k: int|
                pre.events@.len() <= k < store.events@.len() ==> cache_has_event(
                    cache.events@,
                    (#[trigger] store.events@[k]).title@,
                    year,
                ),
            forall|j: int|
                pre_cache_events.len() <= j < cache.events@.len() ==> new_event_row_for(
                    pre.events@.len() as int,
                    store.events@,
                    (#[trigger] cache.events@[j]).title@,
                    year,
                ),
            never_stopped(stop@) ==> forall|ei: int|
                0 <= ei < i ==> match (#[trigger] evs[ei]).title {
                    Some(t) => cache_has_event(pre_cache_events, t@, year) || new_event_row_for(
                        pre.events@.len() as int,
                        store.events@,
                        t@,
                        year,
                    ),
                    None => true,
                },
            forall|k1: int, k2: int|
                pre.documents@.len() <= k1 < k2 < store.documents@.len() ==> (
                #[trigger] store.documents@[k1]).href@ != (#[trigger] store.documents@[k2]).href@,
            forall|k: int|
                pre.documents@.len() <= k < store.documents@.len() ==> cache_has_doc(
                    cache.documents@,
                    (#[trigger] store.documents@[k]).href@,
                ),
            forall|j: int|
                pre_cache_docs.len() <= j < cache.documents@.len() ==> new_doc_row_for(
                    pre.documents@.len() as int,
                    store.documents@,
                    (#[trigger] cache.documents@[j]).href@,
                ),
            full_run(stop@, outcomes@, evs) ==> forall|ei: int, di: int|
                #![trigger evs[ei].documents@[di]]
                0 <= ei < i && evs[ei].title is Some && 0 <= di < evs[ei].documents@.len()
                    ==> match (evs[ei].documents@[di].title, evs[ei].documents@[di].url) {
                    (Some(t2), Some(u)) => cache_has_doc(pre_cache_docs, u@) || new_doc_row_for(
                        pre.documents@.len() as int,
                        store.documents@,
                        u@,
                    ),
                    _ => true,
                },
            forall|k: int|
                pre.images@.len() <= k < store.images@.len() ==> image_row_shaped(
                    #[trigger] store.images@[k],
                    evs,
                    year,
                ),
            forall|k: int|
                pre.documents@.len() <= k < store.documents@.len() ==> new_page0_image_for(
                    pre.images@.len() as int,
                    store.images@,
                    (#[trigger] store.documents@[k]).id,
                ),
            forall|k1: int, k2: int|
                pre.images@.len() <= k1 < k2 < store.images@.len() && (
                #[trigger] store.images@[k1]).document_id == (
                #[trigger] store.images@[k2]).document_id ==> store.images@[k1].page_number
                    < store.images@[k2].page_number,
            forall|k: int|
                pre.images@.len() <= k < store.images@.len() ==> (
                #[trigger] store.images@[k]).document_id < store.next_id,
        ensures
            never_stopped(stop@) ==> i == ne,
        decreases ne - i,
    {
        let stop_now = poll_stop(stop, &mut six);
        if stop_now {
            proof {
                assert(!never_stopped(stop@));
            }
            break;
        }
        let ghost i0 = i as int;
        proof {
            lemma_doc_count_mono(evs, i0, i0 + 1);
            lemma_doc_count_mono(evs, i0 + 1, evs.len() as int);
            assert(doc_count_upto(evs, i0 + 1) == doc_count_upto(evs, i0)
                + evs[i0].documents@.len());
        }
        let ev = &season.events[i];
        match &ev.title {
            None => {},
            Some(title) => {
                let event_id: u64 = match find_cached_event(&cache.events, title.as_str(), year) {
                    Some(id) => {
                        proof {
                            assert(cache_has_event(cache.events@, title@, year));
                            let j = choose|j: int|
                                0 <= j < cache.events@.len() && (
                                #[trigger] cache.events@[j]).title@ == title@
                                    && cache.events@[j].year == year && cache.events@[j].id == id;
                            if j < pre_cache_events.len() {
                                assert(pre_cache_events[j] == cache.events@[j]);
                                assert(cache_has_event(pre_cache_events, title@, year));
                            } else {
                                assert(new_event_row_for(
                                    pre.events@.len() as int,
                                    store.events@,
                                    cache.events@[j].title@,
                                    year,
                                ));
                            }
                        }
                        id
                    },
                    None => {
                        let ghost cache_events_b = cache.events@;
                        let ghost store_events_b = store.events@;
                        let id = store.insert_event(title.clone(), year, series, now);
                        let ghost tr = actions@;
                        actions.push(
                            (ScrapeAction::EventInserted { event_id: id, title: title.clone() }),
                        );
                        proof {
                            lemma_trace_push(tr, actions@.last());
                            assert(evs[i0].title == Some(store.events@.last().title));
                            if cache_has_event(
                                pre_cache_events,
                                store.events@.last().title@,
                                year,
                            ) {
                                lemma_cache_has_event_extends(
                                    pre_cache_events,
                                    cache_events_b,
                                    store.events@.last().title@,
                                    year,
                                );
                                assert(false);
                            }
                            assert(new_scraped_event_ok(
                                store.events@.last(),
                                evs,
                                series,
                                year,
                                pre_cache_events,
                            ));
                        }
                        cache.events.push(
                            Event {
                                id,
                                title: title.clone(),
                                year,
                                series,
                                status: EventStatus::NotAllowed,
                                created_at: now,
                            },
                        );
                        proof {
                            assert(cache.events@.last().title@ == title@);
                            assert(cache_has_event(cache.events@, title@, year));
                            if never_stopped(stop@) {
                                assert forall|ei: int| 0 <= ei < i implies event_title_cached(
                                    #[trigger] evs[ei],
                                    cache.events@,
                                    year,
                                ) by {
                                    match evs[ei].title {
                                        Some(t) => {
                                            lemma_cache_has_event_extends(
                                                cache_events_b,
                                                cache.events@,
                                                t@,
                                                year,
                                            );
                                        },
                                        None => {},
                                    }
                                }
                            }
                            let ghost ne_len = store.events@.len() as int;
                            assert(store.events@.last().title@ == title@);
                            assert(cache_has_event(
                                cache.events@,
                                store.events@.last().title@,
                                year,
                            ));
                            assert(new_event_row_for(
                                pre.events@.len() as int,
                                store.events@,
                                title@,
                                year,
                            ));
                            assert forall|k: int|
                                pre.events@.len() <= k < ne_len - 1 implies cache_has_event(
                                cache.events@,
                                (#[trigger] store.events@[k]).title@,
                                year,
                            ) by {
                                lemma_cache_has_event_extends(
                                    cache_events_b,
                                    cache.events@,
                                    store.events@[k].title@,
                                    year,
                                );
                            }
                            assert forall|k: int|
                                pre.events@.len() <= k < ne_len - 1 implies (
                            #[trigger] store.events@[k]).title@ != title@ by {
                                if store.events@[k].title@ == title@ {
                                    assert(cache_has_event(cache_events_b, title@, year));
                                }
                            }
                            assert forall|j: int|
                                pre_cache_events.len() <= j
                                    < cache.events@.len() implies new_event_row_for(
                                pre.events@.len() as int,
                                store.events@,
                                (#[trigger] cache.events@[j]).title@,
                                year,
                            ) by {
                                if j < cache_events_b.len() {
                                    assert(cache.events@[j] == cache_events_b[j]);
                                    lemma_new_event_row_extends(
                                        pre.events@.len() as int,
                                        store_events_b,
                                        store.events@,
                                        cache_events_b[j].title@,
                                        year,
                                    );
                                }
                            }
                            if never_stopped(stop@) {
                                assert forall|ei: int|
                                    0 <= ei < i implies match (#[trigger] evs[ei]).title {
                                    Some(t) => cache_has_event(pre_cache_events, t@, year)
                                        || new_event_row_for(
                                        pre.events@.len() as int,
                                        store.events@,
                                        t@,
                                        year,
                                    ),
                                    None => true,
                                } by {
                                    match evs[ei].title {
                                        Some(t) => {
                                            if new_event_row_for(
                                                pre.events@.len() as int,
                                                store_events_b,
                                                t@,
                                                year,
                                            ) {
                                                lemma_new_event_row_extends(
                                                    pre.events@.len() as int,
                                                    store_events_b,
                                                    store.events@,
                                                    t@,
                                                    year,
                                                );
                                            }
                                        },
                                        None => {},
                                    }
                                }
                            }
                        }
                        id
                    },
                };
                let nd = ev.documents.len();
                let mut j: usize = 0;
                while j < nd
                    invariant
                        j <= nd,
                        pre.wf(),
                        store.wf(),
                        i < ne,
                        ne == evs.len(),
                        evs == season.events@,
                        *ev == evs[i as int],
                        nd == evs[i as int].documents@.len(),
                        evs[i as int].title == Some(*title),
                        series.spec_supported(),
                        year >= 0,
                        forall|oi: int|
                            0 <= oi < outcomes@.len() ==> outcome_pages_bounded(
                                #[trigger] outcomes@[oi],
                            ),
                        sdc == season_doc_count(evs),
                        pre.next_id as int + ne + sdc * 102 <= u64::MAX as int,
                        doc_count_upto(evs, i as int + 1) == doc_count_upto(evs, i as int) + nd,
                        doc_count_upto(evs, i as int + 1) <= sdc,
                        doc_count_upto(evs, i as int) >= 0,
                        store.guilds@ == pre.guilds@,
                        store.threads@ == pre.threads@,
                        store.allow_requests@ == pre.allow_requests@,
                        store.events@.len() >= pre.events@.len(),
                        forall|k: int|
                            0 <= k < pre.events@.len() ==> store.events@[k] == pre.events@[k],
                        forall|k: int|
                            pre.events@.len() <= k < store.events@.len() ==> new_scraped_event_ok(
                                #[trigger] store.events@[k],
                                evs,
                                series,
                                year,
                                pre_cache_events,
                            ),
                        store.documents@.len() >= pre.documents@.len(),
                        forall|k: int|
                            0 <= k < pre.documents@.len() ==> store.documents@[k]
                                == pre.documents@[k],
                        forall|k: int|
                            pre.documents@.len() <= k < store.documents@.len()
                                ==> new_scraped_doc_ok(
                                #[trigger] store.documents@[k],
                                evs,
                                pre_cache_docs,
                                outcomes@,
                            ),
                        store.images@.len() >= pre.images@.len(),
                        forall|k: int|
                            0 <= k < pre.images@.len() ==> store.images@[k] == pre.images@[k],
                        store.documents@.len() == pre.documents@.len() ==> store.images@.len()
                            == pre.images@.len(),
                        inserts_after_uploads(actions@),
                        forall|ai: int|
                            0 <= ai < actions@.len() ==> scrape_action_ok(
                                #[trigger] actions@[ai],
                                outcomes@,
                                pre_cache_docs,
                            ),
                        cache.events@.len() >= pre_cache_events.len(),
                        forall|k: int|
                            0 <= k < pre_cache_events.len() ==> cache.events@[k]
                                == pre_cache_events[k],
                        cache.documents@.len() >= pre_cache_docs.len(),
                        forall|k: int|
                            0 <= k < pre_cache_docs.len() ==> cache.documents@[k]
                                == pre_cache_docs[k],
                        store.next_id as int <= pre.next_id as int + i + 1 + (doc_count_upto(
                            evs,
                            i as int,
                        ) + j) * 102,
                        oix as int <= doc_count_upto(evs, i as int) + j,
                        never_stopped(stop@) ==> forall|ei: int|
                            0 <= ei < i ==> event_title_cached(
                                #[trigger] evs[ei],
                                cache.events@,
                                year,
                            ),
                        evs[i as int].title is Some,
                        cache_has_event(cache.events@, evs[i as int].title->Some_0@, year),
                        full_run(stop@, outcomes@, evs) ==> forall|ei: int, di: int|
                            #![trigger evs[ei].documents@[di]]
                            0 <= ei < i && evs[ei].title is Some && 0 <= di
                                < evs[ei].documents@.len() ==> doc_href_cached(
                                evs[ei].documents@[di],
                                cache.documents@,
                            ),
                        full_run(stop@, outcomes@, evs) ==> forall|di: int|
                            0 <= di < j ==> doc_href_cached(
                                #[trigger] evs[i as int].documents@[di],
                                cache.documents@,
                            ),
                        forall|k1: int, k2: int|
                            pre.events@.len() <= k1 < k2 < store.events@.len() ==> (
                            #[trigger] store.events@[k1]).title@ != (#[trigger] store.events@[k2]).title@,
                        forall|k: int|
                            pre.events@.len() <= k < store.events@.len() ==> cache_has_event(
                                cache.events@,
                                (#[trigger] store.events@[k]).title@,
                                year,
                            ),
                        forall|j: int|
                            pre_cache_events.len() <= j < cache.events@.len() ==> new_event_row_for(
                                pre.events@.len() as int,
                                store.events@,
                                (#[trigger] cache.events@[j]).title@,
                                year,
                            ),
                        never_stopped(stop@) ==> forall|ei: int|
                            0 <= ei < i ==> match (#[trigger] evs[ei]).title {
                                Some(t) => cache_has_event(pre_cache_events, t@, year) || new_event_row_for(
                                    pre.events@.len() as int,
                                    store.events@,
                                    t@,
                                    year,
                                ),
                                None => true,
                            },
                        forall|k1: int, k2: int|
                            pre.documents@.len() <= k1 < k2 < store.documents@.len() ==> (
                            #[trigger] store.documents@[k1]).href@ != (#[trigger] store.documents@[k2]).href@,
                        forall|k: int|
                            pre.documents@.len() <= k < store.documents@.len() ==> cache_has_doc(
                                cache.documents@,
                                (#[trigger] store.documents@[k]).href@,
                            ),
                        forall|j: int|
                            pre_cache_docs.len() <= j < cache.documents@.len() ==> new_doc_row_for(
                                pre.documents@.len() as int,
                                store.documents@,
                                (#[trigger] cache.documents@[j]).href@,
                            ),
                        full_run(stop@, outcomes@, evs) ==> forall|ei: int, di: int|
                            #![trigger evs[ei].documents@[di]]
                            0 <= ei < i && evs[ei].title is Some && 0 <= di < evs[ei].documents@.len()
                                ==> match (evs[ei].documents@[di].title, evs[ei].documents@[di].url) {
                                (Some(t2), Some(u)) => cache_has_doc(pre_cache_docs, u@) || new_doc_row_for(
                                    pre.documents@.len() as int,
                                    store.documents@,
                                    u@,
                                ),
                                _ => true,
                            },
                        forall|k: int|
                            pre.images@.len() <= k < store.images@.len() ==> image_row_shaped(
                                #[trigger] store.images@[k],
                                evs,
                                year,
                            ),
                        forall|k: int|
                            pre.documents@.len() <= k < store.documents@.len() ==> new_page0_image_for(
                                pre.images@.len() as int,
                                store.images@,
                                (#[trigger] store.documents@[k]).id,
                            ),
                        forall|k1: int, k2: int|
                            pre.images@.len() <= k1 < k2 < store.images@.len() && (
                            #[trigger] store.images@[k1]).document_id == (
                            #[trigger] store.images@[k2]).document_id ==> store.images@[k1].page_number
                                < store.images@[k2].page_number,
                        forall|k: int|
                            pre.images@.len() <= k < store.images@.len() ==> (
                            #[trigger] store.images@[k]).document_id < store.next_id,
                        never_stopped(stop@) ==> (cache_has_event(
                            pre_cache_events,
                            evs[i as int].title->Some_0@,
                            year,
                        ) || new_event_row_for(
                            pre.events@.len() as int,
                            store.events@,
                            evs[i as int].title->Some_0@,
                            year,
                        )),
                        full_run(stop@, outcomes@, evs) ==> forall|di: int|
                            0 <= di < j ==> match ((#[trigger] evs[i as int].documents@[di]).title, evs[i as int].documents@[di].url) {
                            (Some(t2), Some(u)) => cache_has_doc(pre_cache_docs, u@)
                                || new_doc_row_for(
                                pre.documents@.len() as int,
                                store.documents@,
                                u@,
                            ),
                            _ => true,
                        },
                    ensures
                        never_stopped(stop@) ==> j == nd,
                    decreases nd - j,
                {
                    let stop_inner = poll_stop(stop, &mut six);
                    if stop_inner {
                        proof {
                            assert(!never_stopped(stop@));
                        }
                        break;
                    }
                    let d = &ev.documents[j];
                    match (&d.title, &d.url) {
                        (Some(dtitle), Some(durl)) => {
                            if !cache_has_document(&cache.documents, durl.as_str()) {
                                if oix < outcomes.len() {
                                    let oc = &outcomes[oix];
                                    oix = oix + 1;
                                    let ghost store_b = *store;
                                    let ghost cache_docs_b = cache.documents@;
                                    let ghost acts_b = actions@;
                                    let processed = process_document(
                                        store,
                                        &mut cache.documents,
                                        event_id,
                                        title,
                                        dtitle,
                                        durl,
                                        oc,
                                        year,
                                        now,
                                        &mut actions,
                                    );
                                    proof {
                                        if processed {
                                            let nd2 = store.documents@.last();
                                            assert(evs[i as int].documents@[j as int].url == Some(
                                                nd2.href,
                                            ));
                                            assert(evs[i as int].documents@[j as int].title
                                                is Some);
                                            assert(evs[i as int].title is Some);
                                            if cache_has_doc(pre_cache_docs, nd2.href@) {
                                                lemma_cache_has_doc_extends(
                                                    pre_cache_docs,
                                                    cache_docs_b,
                                                    nd2.href@,
                                                );
                                                assert(false);
                                            }
                                            assert(outcomes@[oix - 1].mirror == Some(nd2.mirror));
                                            assert(new_scraped_doc_ok(
                                                nd2,
                                                evs,
                                                pre_cache_docs,
                                                outcomes@,
                                            ));
                                            assert(cache.documents@.last().href@ == durl@);
                                            assert(cache_has_doc(cache.documents@, durl@));
                                            let nd_len = store.documents@.len() as int;
                                            assert(store.documents@.last().href@ == durl@);
                                            assert(new_doc_row_for(
                                                pre.documents@.len() as int,
                                                store.documents@,
                                                cache.documents@.last().href@,
                                            ));
                                            assert forall|k: int|
                                                pre.documents@.len() <= k < nd_len
                                                    - 1 implies cache_has_doc(
                                                cache.documents@,
                                                (#[trigger] store.documents@[k]).href@,
                                            ) by {
                                                lemma_cache_has_doc_extends(
                                                    cache_docs_b,
                                                    cache.documents@,
                                                    store.documents@[k].href@,
                                                );
                                            }
                                            assert forall|k: int|
                                                pre.documents@.len() <= k < nd_len - 1 implies (
                                            #[trigger] store.documents@[k]).href@ != durl@ by {
                                                if store.documents@[k].href@ == durl@ {
                                                    assert(cache_has_doc(cache_docs_b, durl@));
                                                }
                                            }
                                            assert forall|jj: int|
                                                pre_cache_docs.len() <= jj
                                                    < cache.documents@.len() implies new_doc_row_for(
                                                pre.documents@.len() as int,
                                                store.documents@,
                                                (#[trigger] cache.documents@[jj]).href@,
                                            ) by {
                                                if jj < cache_docs_b.len() {
                                                    assert(cache.documents@[jj]
                                                        == cache_docs_b[jj]);
                                                    lemma_new_doc_row_extends(
                                                        pre.documents@.len() as int,
                                                        store_b.documents@,
                                                        store.documents@,
                                                        cache_docs_b[jj].href@,
                                                    );
                                                }
                                            }
                                            assert forall|k: int|
                                                pre.images@.len() <= k
                                                    < store.images@.len() implies image_row_shaped(
                                                #[trigger] store.images@[k],
                                                evs,
                                                year,
                                            ) by {
                                                if k < store_b.images@.len() {
                                                    assert(store.images@[k]
                                                        == store_b.images@[k]);
                                                } else {
                                                    assert(store.images@[k].document_id
                                                        == store_b.next_id);
                                                    assert(store.images@[k].page_number as int == k
                                                        - store_b.images@.len());
                                                    assert(store.images@[k].url@
                                                        == crate::upload::spec_image_url(
                                                        year as int,
                                                        title@,
                                                        store_b.next_id as int,
                                                        k - store_b.images@.len(),
                                                    ));
                                                    assert(evs[i as int].title == Some(*title));
                                                }
                                            }
                                            assert forall|k: int|
                                                pre.documents@.len() <= k
                                                    < nd_len implies new_page0_image_for(
                                                pre.images@.len() as int,
                                                store.images@,
                                                (#[trigger] store.documents@[k]).id,
                                            ) by {
                                                if k < nd_len - 1 {
                                                    lemma_page0_image_extends(
                                                        pre.images@.len() as int,
                                                        store_b.images@,
                                                        store.images@,
                                                        store.documents@[k].id,
                                                    );
                                                } else {
                                                    assert(store.images@.len()
                                                        > store_b.images@.len());
                                                    let k0 = store_b.images@.len() as int;
                                                    assert(store.images@[k0].document_id
                                                        == store_b.next_id);
                                                    assert(store.images@[k0].page_number as int
                                                        == 0);
                                                    assert(store.documents@.last().id
                                                        == store_b.next_id);
                                                }
                                            }
                                            assert forall|k1: int, k2: int|
                                                pre.images@.len() <= k1 < k2 < store.images@.len()
                                                    && (#[trigger] store.images@[k1]).document_id
                                                    == (
                                            #[trigger] store.images@[k2]).document_id implies store.images@[k1].page_number
                                                < store.images@[k2].page_number by {
                                                if k2 < store_b.images@.len() {
                                                    assert(store.images@[k1]
                                                        == store_b.images@[k1]);
                                                    assert(store.images@[k2]
                                                        == store_b.images@[k2]);
                                                } else if k1 >= store_b.images@.len() {
                                                    assert(store.images@[k1].page_number as int
                                                        == k1 - store_b.images@.len());
                                                    assert(store.images@[k2].page_number as int
                                                        == k2 - store_b.images@.len());
                                                } else {
                                                    assert(store.images@[k1]
                                                        == store_b.images@[k1]);
                                                    assert(store_b.images@[k1].document_id
                                                        < store_b.next_id);
                                                    assert(store.images@[k2].document_id
                                                        == store_b.next_id);
                                                }
                                            }
                                            assert forall|k: int|
                                                pre.images@.len() <= k < store.images@.len() implies (
                                            #[trigger] store.images@[k]).document_id
                                                < store.next_id by {
                                                if k < store_b.images@.len() {
                                                    assert(store.images@[k]
                                                        == store_b.images@[k]);
                                                    assert(store_b.images@[k].document_id
                                                        < store_b.next_id);
                                                } else {
                                                    assert(store.images@[k].document_id
                                                        == store_b.next_id);
                                                }
                                            }
                                        } else {
                                            if full_run(stop@, outcomes@, evs) {
                                                assert(doc_outcome_success(outcomes@[oix - 1]));
                                                assert(false);
                                            }
                                            assert(store.images@.len()
                                                == store_b.images@.len());
                                            assert(store.documents@ =~= store_b.documents@);
                                            assert(store.images@ =~= store_b.images@);
                                            assert(cache.documents@ =~= cache_docs_b);
                                        }
                                        if full_run(stop@, outcomes@, evs) {
                                            assert forall|ei: int, di: int|
                                                #![trigger evs[ei].documents@[di]]
                                                0 <= ei < i && evs[ei].title is Some && 0 <= di
                                                    < evs[ei].documents@.len() implies doc_href_cached(
                                                evs[ei].documents@[di],
                                                cache.documents@,
                                            ) by {
                                                match (
                                                evs[ei].documents@[di].title,
                                                evs[ei].documents@[di].url,
                                                ) {
                                                    (Some(t2), Some(u2)) => {
                                                        lemma_cache_has_doc_extends(
                                                            cache_docs_b,
                                                            cache.documents@,
                                                            u2@,
                                                        );
                                                    },
                                                    _ => {},
                                                }
                                            }
                                            assert forall|di: int|
                                                0 <= di < j implies doc_href_cached(
                                                #[trigger] evs[i as int].documents@[di],
                                                cache.documents@,
                                            ) by {
                                                match (
                                                evs[i as int].documents@[di].title,
                                                evs[i as int].documents@[di].url,
                                                ) {
                                                    (Some(t2), Some(u2)) => {
                                                        lemma_cache_has_doc_extends(
                                                            cache_docs_b,
                                                            cache.documents@,
                                                            u2@,
                                                        );
                                                    },
                                                    _ => {},
                                                }
                                            }
                                            assert forall|ei: int, di: int|
                                                #![trigger evs[ei].documents@[di]]
                                                0 <= ei < i && evs[ei].title is Some && 0 <= di
                                                    < evs[ei].documents@.len() implies match (
                                            evs[ei].documents@[di].title,
                                            evs[ei].documents@[di].url,
                                            ) {
                                                (Some(t2), Some(u2)) => cache_has_doc(
                                                    pre_cache_docs,
                                                    u2@,
                                                ) || new_doc_row_for(
                                                    pre.documents@.len() as int,
                                                    store.documents@,
                                                    u2@,
                                                ),
                                                _ => true,
                                            } by {
                                                match (
                                                evs[ei].documents@[di].title,
                                                evs[ei].documents@[di].url,
                                                ) {
                                                    (Some(t2), Some(u2)) => {
                                                        if new_doc_row_for(
                                                            pre.documents@.len() as int,
                                                            store_b.documents@,
                                                            u2@,
                                                        ) {
                                                            lemma_new_doc_row_extends(
                                                                pre.documents@.len() as int,
                                                                store_b.documents@,
                                                                store.documents@,
                                                                u2@,
                                                            );
                                                        }
                                                    },
                                                    _ => {},
                                                }
                                            }
                                            assert forall|di: int|
                                                0 <= di < j implies match ((
                                            #[trigger] evs[i as int].documents@[di]).title, evs[i as int].documents@[di].url) {
                                                (Some(t2), Some(u2)) => cache_has_doc(
                                                    pre_cache_docs,
                                                    u2@,
                                                ) || new_doc_row_for(
                                                    pre.documents@.len() as int,
                                                    store.documents@,
                                                    u2@,
                                                ),
                                                _ => true,
                                            } by {
                                                match (
                                                evs[i as int].documents@[di].title,
                                                evs[i as int].documents@[di].url,
                                                ) {
                                                    (Some(t2), Some(u2)) => {
                                                        if new_doc_row_for(
                                                            pre.documents@.len() as int,
                                                            store_b.documents@,
                                                            u2@,
                                                        ) {
                                                            lemma_new_doc_row_extends(
                                                                pre.documents@.len() as int,
                                                                store_b.documents@,
                                                                store.documents@,
                                                                u2@,
                                                            );
                                                        }
                                                    },
                                                    _ => {},
                                                }
                                            }
                                        }
                                        assert forall|ai: int|
                                            0 <= ai < actions@.len() implies scrape_action_ok(
                                            #[trigger] actions@[ai],
                                            outcomes@,
                                            pre_cache_docs,
                                        ) by {
                                            if ai < acts_b.len() {
                                                assert(actions@[ai] == acts_b[ai]);
                                            } else {
                                                match actions@[ai] {
                                                    ScrapeAction::PdfDownloaded { href } => {
                                                        assert(outcomes@[oix - 1].download_ok);
                                                        if cache_has_doc(pre_cache_docs, durl@) {
                                                            lemma_cache_has_doc_extends(
                                                                pre_cache_docs,
                                                                cache_docs_b,
                                                                durl@,
                                                            );
                                                            assert(false);
                                                        }
                                                    },
                                                    ScrapeAction::MirrorUploaded { href, url } => {
                                                        assert(outcomes@[oix - 1].download_ok
                                                            && outcomes@[oix - 1].mirror == Some(
                                                            url,
                                                        ));
                                                        if cache_has_doc(pre_cache_docs, durl@) {
                                                            lemma_cache_has_doc_extends(
                                                                pre_cache_docs,
                                                                cache_docs_b,
                                                                durl@,
                                                            );
                                                            assert(false);
                                                        }
                                                    },
                                                    ScrapeAction::ImageUploaded {
                                                        document_id,
                                                        page,
                                                    } => {
                                                        assert(match outcomes@[oix
                                                            - 1].page_count {
                                                            Some(n2) => page < n2 && (page as int)
                                                                < outcomes@[oix
                                                                - 1].image_ok@.len() && outcomes@[
                                                                oix - 1
                                                            ].image_ok@[page as int],
                                                            None => false,
                                                        });
                                                    },
                                                    _ => {},
                                                }
                                            }
                                        }
                                    }
                                } else {
                                    proof {
                                        if full_run(stop@, outcomes@, evs) {
                                            assert((oix as int) < sdc);
                                            assert(false);
                                        }
                                    }
                                }
                            } else {
                                proof {
                                    let jj = choose|jj: int|
                                        0 <= jj < cache.documents@.len() && (
                                        #[trigger] cache.documents@[jj]).href@ == durl@;
                                    if jj < pre_cache_docs.len() {
                                        assert(pre_cache_docs[jj] == cache.documents@[jj]);
                                        assert(cache_has_doc(pre_cache_docs, durl@));
                                    } else {
                                        assert(new_doc_row_for(
                                            pre.documents@.len() as int,
                                            store.documents@,
                                            cache.documents@[jj].href@,
                                        ));
                                    }
                                }
                            }
                        },
                        _ => {},
                    }
                    j = j + 1;
                }
                proof {
                    if never_stopped(stop@) {
                        assert forall|ei: int| 0 <= ei < i + 1 implies event_title_cached(
                            #[trigger] evs[ei],
                            cache.events@,
                            year,
                        ) by {}
                        assert forall|ei: int|
                            0 <= ei < i + 1 implies match (#[trigger] evs[ei]).title {
                            Some(t) => cache_has_event(pre_cache_events, t@, year)
                                || new_event_row_for(
                                pre.events@.len() as int,
                                store.events@,
                                t@,
                                year,
                            ),
                            None => true,
                        } by {
                            if ei == i as int {
                                assert(evs[i as int].title is Some);
                            }
                        }
                    }
                    if full_run(stop@, outcomes@, evs) {
                        assert(j == nd);
                        assert forall|ei: int, di: int|
                            #![trigger evs[ei].documents@[di]]
                            0 <= ei < i + 1 && evs[ei].title is Some && 0 <= di
                                < evs[ei].documents@.len() implies doc_href_cached(
                            evs[ei].documents@[di],
                            cache.documents@,
                        ) by {
                            if ei == i as int {
                                assert(doc_href_cached(
                                    evs[i as int].documents@[di],
                                    cache.documents@,
                                ));
                            }
                        }
                        assert forall|ei: int, di: int|
                            #![trigger evs[ei].documents@[di]]
                            0 <= ei < i + 1 && evs[ei].title is Some && 0 <= di
                                < evs[ei].documents@.len() implies match (
                        evs[ei].documents@[di].title,
                        evs[ei].documents@[di].url,
                        ) {
                            (Some(t2), Some(u)) => cache_has_doc(pre_cache_docs, u@)
                                || new_doc_row_for(
                                pre.documents@.len() as int,
                                store.documents@,
                                u@,
                            ),
                            _ => true,
                        } by {
                            if ei == i as int {
                                assert(match (
                                    evs[i as int].documents@[di].title,
                                    evs[i as int].documents@[di].url,
                                ) {
                                    (Some(t2), Some(u)) => cache_has_doc(pre_cache_docs, u@)
                                        || new_doc_row_for(
                                        pre.documents@.len() as int,
                                        store.documents@,
                                        u@,
                                    ),
                                    _ => true,
                                });
                            }
                        }
                    }
                }
            },
        }
        i = i + 1;
    }
    actions
}

/// Scraper idempotence: after a pass that covered the whole unchanged
/// season — every index title and href is in the cache — a second pass
/// over the same season appends no event row and no document row.
pub proof fn lemma_scraper_idempotent(
    evs: Seq<ParserEvent>,
    series: Series,
    year: i32,
    cache_events: Seq<Event>,
    cache_docs: Seq<Document>,
    outcomes: Seq<DocOutcome>,
    pre_events: Seq<Event>,
    post_events: Seq<Event>,
    pre_docs: Seq<Document>,
    post_docs: Seq<Document>,
)
    requires
        forall|ei: int|
            0 <= ei < evs.len() ==> event_title_cached(#[trigger] evs[ei], cache_events, year),
        forall|ei: int, di: int|
            #![trigger evs[ei].documents@[di]]
            0 <= ei < evs.len() && evs[ei].title is Some && 0 <= di < evs[ei].documents@.len()
                ==> doc_href_cached(evs[ei].documents@[di], cache_docs),
        post_events.len() >= pre_events.len(),
        forall|k: int|
            pre_events.len() <= k < post_events.len() ==> new_scraped_event_ok(
                #[trigger] post_events[k],
                evs,
                series,
                year,
                cache_events,
            ),
        post_docs.len() >= pre_docs.len(),
        forall|k: int|
            pre_docs.len() <= k < post_docs.len() ==> new_scraped_doc_ok(
                #[trigger] post_docs[k],
                evs,
                cache_docs,
                outcomes,
            ),
    ensures
        post_events.len() == pre_events.len(),
        post_docs.len() == pre_docs.len(),
{
    if post_events.len() > pre_events.len() {
        let e = post_events[pre_events.len() as int];
        assert(new_scraped_event_ok(e, evs, series, year, cache_events));
        let ei = choose|ei: int|
            0 <= ei < evs.len() && (#[trigger] evs[ei]).title == Some(e.title);
        assert(event_title_cached(evs[ei], cache_events, year));
        assert(cache_has_event(cache_events, e.title@, year));
        assert(false);
    }
    if post_docs.len() > pre_docs.len() {
        let d = post_docs[pre_docs.len() as int];
        assert(new_scraped_doc_ok(d, evs, cache_docs, outcomes));
        let (ei, di) = choose|ei: int, di: int|
            #![trigger evs[ei].documents@[di]]
            0 <= ei < evs.len() && evs[ei].title is Some && 0 <= di < evs[ei].documents@.len()
                && evs[ei].documents@[di].title is Some && evs[ei].documents@[di].url == Some(
                d.href,
            );
        assert(doc_href_cached(evs[ei].documents@[di], cache_docs));
        assert(cache_has_doc(cache_docs, d.href@));
        assert(false);
    }
}

} // verus!
