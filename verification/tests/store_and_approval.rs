use fia_docs_bot::approval::{
    allow_custom_id, approval_buttons, build_approval_message, decision_followup, deny_custom_id,
    parse_custom_id, update_allow_request, REQUEST_CHANNEL_ID,
};
use fia_docs_bot::model::{AllowRequestStatus, DocumentStatus, EventStatus, Guild, Series};
use fia_docs_bot::store::Store;

fn guild(discord_id: &str) -> Guild {
    Guild {
        id: 0,
        discord_id: discord_id.to_string(),
        name: "test guild".to_string(),
        f1_role: None,
        f1_channel: Some("111".to_string()),
        f1_threads: true,
        f2_role: None,
        f2_channel: None,
        f2_threads: true,
        f3_role: None,
        f3_channel: None,
        f3_threads: true,
        joined_at: 0,
    }
}

#[test]
fn store_queries_filter_and_sort() {
    let mut s = Store::new();
    let e1 = s.insert_event("A".to_string(), 2024, Series::F1, 10);
    let _e2 = s.insert_event("B".to_string(), 2023, Series::F1, 11);
    let d_old = s.insert_document(e1, "old".to_string(), "h1".to_string(), "m1".to_string(), 100);
    let d_new = s.insert_document(e1, "new".to_string(), "h2".to_string(), "m2".to_string(), 200);
    s.update_document_status(d_old, DocumentStatus::ReadyToPost);
    s.update_document_status(d_new, DocumentStatus::ReadyToPost);

    let by_status = s.fetch_events_by_status(EventStatus::NotAllowed, 2024);
    assert_eq!(by_status.len(), 1);
    assert_eq!(by_status[0].title, "A");

    // Ready documents come back newest first.
    let docs = s.fetch_docs_for_event(e1);
    assert_eq!(docs.len(), 2);
    assert_eq!(docs[0].title, "new");
    assert_eq!(docs[1].title, "old");

    // Images come back page-ordered and capped at four.
    let doc_id = d_old;
    for page in [3u64, 0, 4, 1, 2, 5] {
        s.insert_image(doc_id, page, format!("u{page}"), 0);
    }
    let images = s.fetch_images_for_document(doc_id);
    assert_eq!(images.len(), 4);
    assert!(images.windows(2).all(|w| w[0].page_number <= w[1].page_number));

    // Marking a document done takes it out of the ready set.
    s.mark_doc_done(d_new);
    let docs = s.fetch_docs_for_event(e1);
    assert_eq!(docs.len(), 1);
    assert_eq!(docs[0].title, "old");
}

#[test]
fn store_lookup_helpers() {
    let mut s = Store::new();
    let e1 = s.insert_event("A".to_string(), 2024, Series::F2, 50);
    let _ = s.insert_event("B".to_string(), 2024, Series::F2, 80);
    let g = s.insert_guild(guild("g-1"));
    let t = s.insert_new_thread("t-disc".to_string(), "chan".to_string(), e1, g, 0);

    assert_eq!(s.get_event_by_id(e1).unwrap().title, "A");
    assert!(s.get_event_by_id(9999).is_none());
    let latest = s.fetch_latest_event_by_series(Series::F2).unwrap();
    assert_eq!(latest.title, "B");
    assert!(s.fetch_latest_event_by_series(Series::F3).is_none());
    assert_eq!(s.fetch_guild_by_discord_id("g-1").unwrap().id, g);
    assert!(s.fetch_guild_by_discord_id("missing").is_none());
    assert_eq!(s.fetch_thread_for_guild_and_event(g, e1).unwrap().id, t);
    assert!(s.fetch_thread_for_guild_and_event(g, 777).is_none());
}

#[test]
fn clearing_guild_settings_nulls_one_channel() {
    let mut s = Store::new();
    let g = s.insert_guild(guild("g-2"));
    s.clear_guild_settings(g, Series::F1);
    let row = s.fetch_guild_by_discord_id("g-2").unwrap();
    assert!(row.f1_channel.is_none());
    // The other series and the flags are untouched.
    assert!(row.f1_threads);
    assert!(row.f2_channel.is_none());
}

#[test]
fn custom_ids_round_trip() {
    assert_eq!(allow_custom_id(12), "allow-12");
    assert_eq!(deny_custom_id(12), "deny-12");
    assert_eq!(parse_custom_id("allow-12"), Some((true, 12)));
    assert_eq!(parse_custom_id("deny-7"), Some((false, 7)));
}

#[test]
fn malformed_custom_ids_are_rejected() {
    assert_eq!(parse_custom_id("allow-"), None);
    assert_eq!(parse_custom_id("allow-12x"), None);
    assert_eq!(parse_custom_id("settings"), None);
    assert_eq!(parse_custom_id("allow-99999999999999999999999"), None);
    assert_eq!(parse_custom_id(""), None);
}

#[test]
fn approval_message_and_buttons() {
    let mut s = Store::new();
    let e = s.insert_event("British Grand Prix".to_string(), 2024, Series::F1, 0);
    let ev = s.get_event_by_id(e).unwrap();
    let msg = build_approval_message(3, &ev);
    assert_eq!(msg.embed_title, "New Event Found!");
    assert_eq!(
        msg.embed_description,
        "## 2024 F1 British Grand Prix\n\nPlease allow or deny."
    );
    assert_eq!(msg.allow_button.custom_id, "allow-3");
    assert_eq!(msg.allow_button.label, "Allow");
    assert!(!msg.allow_button.danger);
    assert!(!msg.allow_button.disabled);
    assert_eq!(msg.deny_button.custom_id, "deny-3");
    assert!(msg.deny_button.danger);

    // Once decided, the same buttons come back disabled.
    let (a, d) = approval_buttons(3, true);
    assert!(a.disabled && d.disabled);
    assert!(REQUEST_CHANNEL_ID > 0);
}

#[test]
fn followup_text_attributes_the_decision() {
    let global = "Global".to_string();
    assert_eq!(
        decision_followup(true, "user", Some(&global)),
        "Allowed by user (Global)"
    );
    assert_eq!(decision_followup(false, "user", None), "Denied by user (INVALID)");
}

#[test]
fn approval_moves_event_and_request_atomically() {
    let mut s = Store::new();
    let e = s.insert_event("E".to_string(), 2024, Series::F1, 0);
    let r = s.create_allow_request(e, 5);
    let applied = update_allow_request(&mut s, r, true, "9001".to_string(), 77);
    assert!(applied);
    assert_eq!(s.get_event_by_id(e).unwrap().status, EventStatus::Allowed);
    let req = s.has_allow_request(e).unwrap();
    assert_eq!(req.response, AllowRequestStatus::Allowed);
    assert_eq!(req.approved_by.as_deref(), Some("9001"));
    assert_eq!(req.approved_at, Some(77));
}

#[test]
fn denial_moves_both_rows_to_denied() {
    let mut s = Store::new();
    let e = s.insert_event("E".to_string(), 2024, Series::F1, 0);
    let r = s.create_allow_request(e, 5);
    assert!(update_allow_request(&mut s, r, false, "9001".to_string(), 77));
    assert_eq!(s.get_event_by_id(e).unwrap().status, EventStatus::Denied);
    assert_eq!(s.has_allow_request(e).unwrap().response, AllowRequestStatus::Denied);
}

#[test]
fn repeated_clicks_are_no_ops() {
    let mut s = Store::new();
    let e = s.insert_event("E".to_string(), 2024, Series::F1, 0);
    let r = s.create_allow_request(e, 5);
    assert!(update_allow_request(&mut s, r, true, "1".to_string(), 10));
    // The second click finds no open request and changes nothing.
    assert!(!update_allow_request(&mut s, r, false, "2".to_string(), 20));
    assert_eq!(s.get_event_by_id(e).unwrap().status, EventStatus::Allowed);
    assert_eq!(s.has_allow_request(e).unwrap().approved_by.as_deref(), Some("1"));
    // A decision on a request that does not exist is also a no-op.
    assert!(!update_allow_request(&mut s, 555, true, "3".to_string(), 30));
}
