use fia_docs_bot::approval::update_allow_request;
use fia_docs_bot::model::{AllowRequestStatus, DocumentStatus, EventStatus, Guild, Series};
use fia_docs_bot::publisher::{
    publisher_tick, ChatError, PubAction, SendOutcome, ThreadOutcome,
};
use fia_docs_bot::store::Store;

const YEAR: i32 = 2024;
const NOW: i64 = 1_700_000_000;

fn guild_with_f1_channel(channel: Option<&str>, threads: bool, role: Option<&str>) -> Guild {
    Guild {
        id: 0,
        discord_id: "500".to_string(),
        name: "g".to_string(),
        f1_role: role.map(|r| r.to_string()),
        f1_channel: channel.map(|c| c.to_string()),
        f1_threads: threads,
        f2_role: None,
        f2_channel: None,
        f2_threads: true,
        f3_role: None,
        f3_channel: None,
        f3_threads: true,
        joined_at: 0,
    }
}

/// One discovered event with one ready document, as the scraper leaves it.
fn seeded_store() -> (Store, u64, u64) {
    let mut s = Store::new();
    let e = s.insert_event("British Grand Prix".to_string(), YEAR, Series::F1, NOW);
    let d = s.insert_document(
        e,
        "Entry List".to_string(),
        "https://www.fia.com/x.pdf".to_string(),
        "https://fia.ort.dev/mirror/2024/British Grand Prix/Entry%20List.pdf".to_string(),
        NOW,
    );
    s.insert_image(d, 0, "https://fia.ort.dev/img/2024/e/1-0.jpg".to_string(), NOW);
    s.update_document_status(d, DocumentStatus::ReadyToPost);
    (s, e, d)
}

#[test]
fn approval_flow_opens_one_request() {
    let (mut s, e, _d) = seeded_store();
    s.insert_guild(guild_with_f1_channel(Some("C"), true, None));
    let actions = publisher_tick(&mut s, YEAR, NOW, &vec![], &vec![]);
    let requested: Vec<_> = actions
        .iter()
        .filter(|a| matches!(a, PubAction::ApprovalRequested { .. }))
        .collect();
    assert_eq!(requested.len(), 1);
    let req = s.has_allow_request(e).unwrap();
    assert_eq!(req.response, AllowRequestStatus::Open);

    // A second tick does not open a duplicate request.
    let actions2 = publisher_tick(&mut s, YEAR, NOW, &vec![], &vec![]);
    assert!(actions2
        .iter()
        .all(|a| !matches!(a, PubAction::ApprovalRequested { .. })));
}

#[test]
fn fan_out_creates_thread_and_delivers_once() {
    let (mut s, e, d) = seeded_store();
    let g = s.insert_guild(guild_with_f1_channel(Some("C"), true, None));
    let r = s.create_allow_request(e, NOW);
    assert!(update_allow_request(&mut s, r, true, "op".to_string(), NOW));

    let thread_outcomes = vec![ThreadOutcome::Created("T-900".to_string())];
    let send_outcomes = vec![SendOutcome::Sent];
    let actions = publisher_tick(&mut s, YEAR, NOW, &thread_outcomes, &send_outcomes);

    // A thread row was created for (guild, event).
    let t = s.fetch_thread_for_guild_and_event(g, e).unwrap();
    assert_eq!(t.discord_id, "T-900");
    assert_eq!(t.channel_id, "C");
    assert!(actions.iter().any(|a| matches!(
        a,
        PubAction::ThreadCreated { discord_id, .. } if discord_id == "T-900"
    )));

    // The document was delivered into that thread exactly once and is
    // now Posted.
    let delivered: Vec<_> = actions
        .iter()
        .filter(|a| matches!(a, PubAction::Delivered { .. }))
        .collect();
    assert_eq!(delivered.len(), 1);
    assert!(matches!(
        delivered[0],
        PubAction::Delivered { document_id, channel, .. }
            if *document_id == d && channel == "T-900"
    ));
    assert_eq!(s.documents[0].status, DocumentStatus::Posted);

    // The next tick has nothing left to deliver.
    let actions2 = publisher_tick(&mut s, YEAR, NOW, &vec![], &vec![SendOutcome::Sent]);
    assert!(actions2.iter().all(|a| !matches!(a, PubAction::Delivered { .. })));
}

#[test]
fn existing_thread_is_reused() {
    let (mut s, e, _d) = seeded_store();
    let g = s.insert_guild(guild_with_f1_channel(Some("C"), true, None));
    s.insert_new_thread("T-OLD".to_string(), "C".to_string(), e, g, NOW);
    let r = s.create_allow_request(e, NOW);
    assert!(update_allow_request(&mut s, r, true, "op".to_string(), NOW));

    let actions = publisher_tick(&mut s, YEAR, NOW, &vec![], &vec![SendOutcome::Sent]);
    assert!(actions.iter().all(|a| !matches!(a, PubAction::ThreadCreated { .. })));
    assert!(actions.iter().any(|a| matches!(
        a,
        PubAction::Delivered { channel, .. } if channel == "T-OLD"
    )));
}

#[test]
fn plain_channel_guild_gets_message_without_thread() {
    let (mut s, e, _d) = seeded_store();
    s.insert_guild(guild_with_f1_channel(Some("C42"), false, None));
    let r = s.create_allow_request(e, NOW);
    assert!(update_allow_request(&mut s, r, true, "op".to_string(), NOW));
    let actions = publisher_tick(&mut s, YEAR, NOW, &vec![], &vec![SendOutcome::Sent]);
    assert!(actions.iter().all(|a| !matches!(a, PubAction::ThreadCreated { .. })));
    assert!(actions.iter().any(|a| matches!(
        a,
        PubAction::Delivered { channel, .. } if channel == "C42"
    )));
}

#[test]
fn denial_suppresses_all_fan_out() {
    let (mut s, e, _d) = seeded_store();
    s.insert_guild(guild_with_f1_channel(Some("C"), true, None));
    let r = s.create_allow_request(e, NOW);
    assert!(update_allow_request(&mut s, r, false, "op".to_string(), NOW));
    assert_eq!(s.get_event_by_id(e).unwrap().status, EventStatus::Denied);

    let actions = publisher_tick(
        &mut s,
        YEAR,
        NOW,
        &vec![ThreadOutcome::Created("T".to_string())],
        &vec![SendOutcome::Sent],
    );
    assert!(actions.iter().all(|a| !matches!(a, PubAction::ThreadCreated { .. })));
    assert!(actions.iter().all(|a| !matches!(a, PubAction::Delivered { .. })));
    assert!(s.threads.is_empty());
    assert_eq!(s.documents[0].status, DocumentStatus::ReadyToPost);
}

#[test]
fn unconfigured_guild_is_never_touched() {
    let (mut s, e, _d) = seeded_store();
    s.insert_guild(guild_with_f1_channel(None, true, None));
    let r = s.create_allow_request(e, NOW);
    assert!(update_allow_request(&mut s, r, true, "op".to_string(), NOW));
    let actions = publisher_tick(
        &mut s,
        YEAR,
        NOW,
        &vec![ThreadOutcome::Created("T".to_string())],
        &vec![SendOutcome::Sent],
    );
    assert!(actions.iter().all(|a| !matches!(a, PubAction::ThreadCreated { .. })));
    assert!(actions.iter().all(|a| !matches!(a, PubAction::Delivered { .. })));
    assert!(s.threads.is_empty());
    // The document is still marked Posted by the tick itself.
    assert_eq!(s.documents[0].status, DocumentStatus::Posted);
}

#[test]
fn permission_error_on_send_clears_the_channel() {
    let (mut s, e, _d) = seeded_store();
    let g = s.insert_guild(guild_with_f1_channel(Some("bad"), false, None));
    let r = s.create_allow_request(e, NOW);
    assert!(update_allow_request(&mut s, r, true, "op".to_string(), NOW));

    let actions = publisher_tick(
        &mut s,
        YEAR,
        NOW,
        &vec![],
        &vec![SendOutcome::SendFailed(ChatError::MissingAccess)],
    );
    assert!(actions.iter().any(|a| matches!(
        a,
        PubAction::ChannelCleared { guild_id, series: Series::F1 } if *guild_id == g
    )));
    let row = s.fetch_guild_by_discord_id("500").unwrap();
    assert!(row.f1_channel.is_none());

    // No further attempts occur for that guild.
    let actions2 = publisher_tick(&mut s, YEAR, NOW, &vec![], &vec![SendOutcome::Sent]);
    assert!(actions2.iter().all(|a| !matches!(a, PubAction::Delivered { .. })));
}

#[test]
fn permission_error_on_thread_creation_clears_the_channel() {
    let (mut s, e, _d) = seeded_store();
    s.insert_guild(guild_with_f1_channel(Some("bad"), true, None));
    let r = s.create_allow_request(e, NOW);
    assert!(update_allow_request(&mut s, r, true, "op".to_string(), NOW));

    let _ = publisher_tick(
        &mut s,
        YEAR,
        NOW,
        &vec![ThreadOutcome::ThreadFailed(ChatError::UnknownChannel)],
        &vec![],
    );
    let row = s.fetch_guild_by_discord_id("500").unwrap();
    assert!(row.f1_channel.is_none());
    assert!(s.threads.is_empty());
}

#[test]
fn other_send_errors_do_not_clear_settings() {
    let (mut s, e, _d) = seeded_store();
    let r = s.create_allow_request(e, NOW);
    s.insert_guild(guild_with_f1_channel(Some("C"), false, None));
    assert!(update_allow_request(&mut s, r, true, "op".to_string(), NOW));
    let actions = publisher_tick(
        &mut s,
        YEAR,
        NOW,
        &vec![],
        &vec![SendOutcome::SendFailed(ChatError::Other)],
    );
    assert!(actions.iter().any(|a| matches!(a, PubAction::DeliveryFailed { .. })));
    assert!(actions.iter().all(|a| !matches!(a, PubAction::ChannelCleared { .. })));
    let row = s.fetch_guild_by_discord_id("500").unwrap();
    assert_eq!(row.f1_channel.as_deref(), Some("C"));
    // The document stays Posted and is not retried.
    assert_eq!(s.documents[0].status, DocumentStatus::Posted);
}

#[test]
fn stale_allowed_event_ages_out_but_still_delivers() {
    let mut s = Store::new();
    let eleven_days = 11 * 86_400;
    let e = s.insert_event("Old Event".to_string(), YEAR, Series::F1, NOW - eleven_days);
    let d = s.insert_document(
        e,
        "Doc".to_string(),
        "https://www.fia.com/o.pdf".to_string(),
        "https://fia.ort.dev/mirror/2024/Old Event/Doc.pdf".to_string(),
        NOW - eleven_days,
    );
    s.update_document_status(d, DocumentStatus::ReadyToPost);
    s.insert_guild(guild_with_f1_channel(Some("C"), false, None));
    let r = s.create_allow_request(e, NOW - eleven_days);
    assert!(update_allow_request(&mut s, r, true, "op".to_string(), NOW));

    let actions = publisher_tick(&mut s, YEAR, NOW, &vec![], &vec![SendOutcome::Sent]);
    assert!(actions.iter().any(|a| matches!(a, PubAction::EventAgedOut { .. })));
    // The aged-out tick still fans out the ready document.
    assert!(actions.iter().any(|a| matches!(a, PubAction::Delivered { .. })));
    assert_eq!(s.get_event_by_id(e).unwrap().status, EventStatus::Posted);
}

#[test]
fn role_mention_delivery_targets_configured_role() {
    // The queued destination carries the role for the send; here we
    // check it survives guild materialization.
    let (mut s, e, _d) = seeded_store();
    s.insert_guild(guild_with_f1_channel(Some("C"), false, Some("777")));
    let r = s.create_allow_request(e, NOW);
    assert!(update_allow_request(&mut s, r, true, "op".to_string(), NOW));
    let actions = publisher_tick(&mut s, YEAR, NOW, &vec![], &vec![SendOutcome::Sent]);
    assert!(actions.iter().any(|a| matches!(a, PubAction::Delivered { .. })));
}

#[test]
fn no_send_success_means_no_delivery_recorded() {
    let (mut s, e, _d) = seeded_store();
    s.insert_guild(guild_with_f1_channel(Some("C"), false, None));
    let r = s.create_allow_request(e, NOW);
    assert!(update_allow_request(&mut s, r, true, "op".to_string(), NOW));
    let actions = publisher_tick(
        &mut s,
        YEAR,
        NOW,
        &vec![],
        &vec![SendOutcome::SendFailed(ChatError::Other)],
    );
    assert!(actions.iter().all(|a| !matches!(a, PubAction::Delivered { .. })));
    assert!(actions.iter().any(|a| matches!(a, PubAction::DeliveryFailed { .. })));
}

#[test]
fn one_guild_error_does_not_block_another() {
    let (mut s, e, d) = seeded_store();
    let mut bad = guild_with_f1_channel(Some("bad"), false, None);
    bad.discord_id = "501".to_string();
    let g_bad = s.insert_guild(bad);
    let mut ok = guild_with_f1_channel(Some("ok"), false, None);
    ok.discord_id = "502".to_string();
    let g_ok = s.insert_guild(ok);
    let r = s.create_allow_request(e, NOW);
    assert!(update_allow_request(&mut s, r, true, "op".to_string(), NOW));

    // Outcomes are consumed in queue order: the first send hits the
    // permission error, the second succeeds.
    let actions = publisher_tick(
        &mut s,
        YEAR,
        NOW,
        &vec![],
        &vec![
            SendOutcome::SendFailed(ChatError::MissingAccess),
            SendOutcome::Sent,
        ],
    );
    assert!(actions.iter().any(|a| matches!(
        a,
        PubAction::DeliveryFailed { guild_id, .. } if *guild_id == g_bad
    )));
    assert!(actions.iter().any(|a| matches!(
        a,
        PubAction::Delivered { guild_id, document_id, .. }
            if *guild_id == g_ok && *document_id == d
    )));
    // Only the failing guild was remediated.
    assert!(s.fetch_guild_by_discord_id("501").unwrap().f1_channel.is_none());
    assert_eq!(
        s.fetch_guild_by_discord_id("502").unwrap().f1_channel.as_deref(),
        Some("ok")
    );
}
