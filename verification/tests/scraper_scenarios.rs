use fia_docs_bot::model::{DocumentStatus, EventStatus, Series};
use fia_docs_bot::parser::{ParserDocument, ParserEvent, Season};
use fia_docs_bot::scraper::{scraper_tick, DocOutcome, LocalCache, ScrapeAction, series_docs_url};
use fia_docs_bot::store::Store;

fn one_event_season() -> Season {
    Season {
        year: 2024,
        events: vec![ParserEvent {
            title: Some("British Grand Prix".to_string()),
            season: Some(2024),
            documents: vec![ParserDocument {
                title: Some("Entry List".to_string()),
                url: Some("https://www.fia.com/x.pdf".to_string()),
                date: Some("04.07.2024".to_string()),
            }],
        }],
    }
}

fn good_outcome(pages: u64) -> DocOutcome {
    DocOutcome {
        download_ok: true,
        mirror: Some("https://fia.ort.dev/mirror/2024/British Grand Prix/Entry%20List.pdf".to_string()),
        page_count: Some(pages),
        image_ok: vec![true; pages as usize],
    }
}

#[test]
fn new_event_discovery_persists_everything() {
    let mut store = Store::new();
    let mut cache = LocalCache::new();
    let season = one_event_season();
    let actions = scraper_tick(
        &mut store,
        &mut cache,
        &season,
        Series::F1,
        2024,
        1_700_000_000,
        &vec![good_outcome(2)],
        &vec![],
    );

    assert_eq!(store.events.len(), 1);
    assert_eq!(store.events[0].title, "British Grand Prix");
    assert_eq!(store.events[0].status, EventStatus::NotAllowed);
    assert_eq!(store.events[0].year, 2024);

    assert_eq!(store.documents.len(), 1);
    assert_eq!(store.documents[0].status, DocumentStatus::ReadyToPost);
    assert_eq!(store.documents[0].href, "https://www.fia.com/x.pdf");
    assert_eq!(
        store.documents[0].mirror,
        "https://fia.ort.dev/mirror/2024/British Grand Prix/Entry%20List.pdf"
    );

    assert_eq!(store.images.len(), 2);
    assert_eq!(store.images[0].page_number, 0);
    assert_eq!(
        store.images[0].url,
        "https://fia.ort.dev/img/2024/British%20Grand%20Prix/1-0.jpg"
    );

    // The trace records the completed document.
    assert!(actions
        .iter()
        .any(|a| matches!(a, ScrapeAction::DocumentReady { .. })));
    // The cache learned both the event and the href.
    assert_eq!(cache.events.len(), 1);
    assert_eq!(cache.documents.len(), 1);
}

#[test]
fn trace_orders_uploads_before_inserts() {
    let mut store = Store::new();
    let mut cache = LocalCache::new();
    let season = one_event_season();
    let actions = scraper_tick(
        &mut store,
        &mut cache,
        &season,
        Series::F1,
        2024,
        0,
        &vec![good_outcome(1)],
        &vec![],
    );
    let mirror_at = actions
        .iter()
        .position(|a| matches!(a, ScrapeAction::MirrorUploaded { .. }))
        .unwrap();
    let doc_at = actions
        .iter()
        .position(|a| matches!(a, ScrapeAction::DocumentInserted { .. }))
        .unwrap();
    let img_up_at = actions
        .iter()
        .position(|a| matches!(a, ScrapeAction::ImageUploaded { .. }))
        .unwrap();
    let img_ins_at = actions
        .iter()
        .position(|a| matches!(a, ScrapeAction::ImageInserted { .. }))
        .unwrap();
    assert!(mirror_at < doc_at);
    assert!(img_up_at < img_ins_at);
}

#[test]
fn second_tick_over_unchanged_index_inserts_nothing() {
    let mut store = Store::new();
    let mut cache = LocalCache::new();
    let season = one_event_season();
    let _ = scraper_tick(
        &mut store,
        &mut cache,
        &season,
        Series::F1,
        2024,
        0,
        &vec![good_outcome(1)],
        &vec![],
    );
    let events_before = store.events.len();
    let docs_before = store.documents.len();
    let images_before = store.images.len();

    let actions2 = scraper_tick(
        &mut store,
        &mut cache,
        &season,
        Series::F1,
        2024,
        1,
        &vec![good_outcome(1)],
        &vec![],
    );
    assert_eq!(store.events.len(), events_before);
    assert_eq!(store.documents.len(), docs_before);
    assert_eq!(store.images.len(), images_before);
    assert!(actions2.is_empty());
}

#[test]
fn failed_upload_persists_nothing_and_next_tick_retries() {
    let mut store = Store::new();
    let mut cache = LocalCache::new();
    let season = one_event_season();
    let failed = DocOutcome {
        download_ok: true,
        mirror: None,
        page_count: None,
        image_ok: vec![],
    };
    let _ = scraper_tick(
        &mut store,
        &mut cache,
        &season,
        Series::F1,
        2024,
        0,
        &vec![failed],
        &vec![],
    );
    // The event row exists, but no document, image, or Initial leftover.
    assert_eq!(store.events.len(), 1);
    assert!(store.documents.is_empty());
    assert!(store.images.is_empty());
    assert!(cache.documents.is_empty());

    // The next tick re-attempts and succeeds.
    let _ = scraper_tick(
        &mut store,
        &mut cache,
        &season,
        Series::F1,
        2024,
        1,
        &vec![good_outcome(1)],
        &vec![],
    );
    assert_eq!(store.events.len(), 1);
    assert_eq!(store.documents.len(), 1);
    assert_eq!(store.documents[0].status, DocumentStatus::ReadyToPost);
}

#[test]
fn shutdown_mid_scrape_leaves_no_dangling_rows() {
    let mut store = Store::new();
    let mut cache = LocalCache::new();
    let mut season = one_event_season();
    season.events[0].documents.push(ParserDocument {
        title: Some("Second Doc".to_string()),
        url: Some("https://www.fia.com/y.pdf".to_string()),
        date: None,
    });
    // Polls: the event poll reads false, the first document poll reads
    // false, the second document poll reads true.
    let stop = vec![false, false, true];
    let _ = scraper_tick(
        &mut store,
        &mut cache,
        &season,
        Series::F1,
        2024,
        0,
        &vec![good_outcome(1), good_outcome(1)],
        &stop,
    );
    // The first document completed through ReadyToPost; the second was
    // never started; nothing is left Initial.
    assert_eq!(store.documents.len(), 1);
    assert!(store
        .documents
        .iter()
        .all(|d| d.status == DocumentStatus::ReadyToPost));
}

#[test]
fn cache_revalidation_window_is_one_day() {
    let mut cache = LocalCache::new();
    assert!(cache.needs_refresh(86_400));
    cache.populate(vec![], vec![], 100_000);
    assert!(!cache.needs_refresh(100_000 + 86_399));
    assert!(cache.needs_refresh(100_000 + 86_400));
}

#[test]
fn series_index_urls_are_fixed() {
    assert_eq!(
        series_docs_url(Series::F1),
        "https://www.fia.com/documents/championships/fia-formula-one-world-championship-14/season/season-2024-2043"
    );
    assert_eq!(
        series_docs_url(Series::F2),
        "https://www.fia.com/documents/season/season-2024-2043/championships/formula-2-championship-44"
    );
    assert_eq!(
        series_docs_url(Series::F3),
        "https://www.fia.com/documents/season/season-2024-2043/championships/fia-formula-3-championship-1012"
    );
}

#[test]
fn zero_page_render_is_not_persisted() {
    // A document whose rasterizer produced no page is incomplete: the
    // tick persists nothing and retries next time.
    let mut store = Store::new();
    let mut cache = LocalCache::new();
    let season = one_event_season();
    let zero_pages = DocOutcome {
        download_ok: true,
        mirror: Some("https://fia.ort.dev/mirror/2024/E/D.pdf".to_string()),
        page_count: Some(0),
        image_ok: vec![],
    };
    let _ = scraper_tick(
        &mut store,
        &mut cache,
        &season,
        Series::F1,
        2024,
        0,
        &vec![zero_pages],
        &vec![],
    );
    assert!(store.documents.is_empty());
    assert!(store.images.is_empty());
}

#[test]
fn persisted_images_carry_page_zero_and_ascend() {
    let mut store = Store::new();
    let mut cache = LocalCache::new();
    let season = one_event_season();
    let _ = scraper_tick(
        &mut store,
        &mut cache,
        &season,
        Series::F1,
        2024,
        0,
        &vec![good_outcome(3)],
        &vec![],
    );
    assert_eq!(store.images.len(), 3);
    assert_eq!(store.images[0].page_number, 0);
    assert!(store.images.windows(2).all(|w| w[0].page_number < w[1].page_number));
}
