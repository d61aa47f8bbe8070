//! The publisher loop's logic: opening approval requests for new
//! events, aging out stale ones, materializing per-guild destinations,
//! and fanning documents out — exactly once per document and guild.
//!
//! Chat-platform calls are outside work; one tick takes their outcomes
//! as inputs and the whole tick relation is stated over the store before
//! and after, plus the trace of actions it performed.

use vstd::prelude::*;
use vstd::string::StringExecFns;

use crate::model::Document;
use crate::model::DocumentStatus;
use crate::model::Event;
use crate::model::EventStatus;
use crate::model::Guild;
use crate::model::Image;
use crate::model::Series;
use crate::model::AllowRequest;
use crate::model::AllowRequestStatus;
use crate::model::Thread;
use crate::store::spec_clear_channel;
use crate::store::Store;
use crate::text::dec_of;
use crate::text::u64_to_dec;

verus! {

/// The chat-platform errors the publisher distinguishes: the three
/// permission-class errors trigger auto-remediation, everything else is
/// only reported.
#[derive(Clone, Copy, Debug, PartialEq, Eq, Structural)]
pub enum ChatError {
    MissingPermissions,
    UnknownChannel,
    MissingAccess,
    Other,
}

/// Whether an error clears the guild's channel setting.
pub open spec fn spec_is_permission_error(e: ChatError) -> bool {
    e == ChatError::MissingPermissions || e == ChatError::UnknownChannel || e
        == ChatError::MissingAccess
}

pub fn is_permission_error(e: ChatError) -> (r: bool)
    ensures
        r == spec_is_permission_error(e),
{
    matches!(e, ChatError::MissingPermissions | ChatError::UnknownChannel | ChatError::MissingAccess)
}

/// What creating a chat-platform thread returned: its id, or an error.
#[derive(Debug)]
pub enum ThreadOutcome {
    Created(String),
    ThreadFailed(ChatError),
}

/// What sending one message returned.
#[derive(Clone, Copy, Debug)]
pub enum SendOutcome {
    Sent,
    SendFailed(ChatError),
}

/// One guild's resolved destination for one event's documents.
pub struct QueuedGuild {
    pub guild_id: u64,
    pub guild_discord_id: String,
    pub channel_to_post: String,
    pub role: Option<String>,
    pub event_id: u64,
}

/// One embed of a delivered document message.
pub struct Embed {
    pub title: Option<String>,
    pub url: Option<String>,
    pub description: Option<String>,
    pub color: Option<u32>,
    pub thumbnail: Option<String>,
    pub timestamp: Option<i64>,
    pub author: Option<String>,
    pub image: Option<String>,
}

/// A document message: mention content plus a list of embeds.
pub struct ChatMessage {
    pub content: String,
    pub embeds: Vec<Embed>,
}

/// The embed color of every document message.
pub const EMBED_COLOR: u32 = 0x003063;

/// The thumbnail of the first embed.
pub open spec fn spec_logo_url() -> Seq<char> {
    "https://static.ort.dev/fiadontsueme/fia_logo.png"@
}

/// The first embed of a document message: title, upstream link, a
/// `[mirror](…)` description, the fixed color and thumbnail, the
/// document's timestamp, the `FIA Document` author line, and the first
/// page image if one exists.
pub open spec fn spec_main_embed(e: Embed, doc: Document, images: Seq<Image>) -> bool {
    &&& e.title == Some(doc.title)
    &&& e.url == Some(doc.href)
    &&& match e.description {
        Some(d) => d@ == "[mirror]("@ + doc.mirror@ + ")"@,
        None => false,
    }
    &&& e.color == Some(EMBED_COLOR)
    &&& match e.thumbnail {
        Some(t) => t@ == spec_logo_url(),
        None => false,
    }
    &&& e.timestamp == Some(doc.created_at)
    &&& match e.author {
        Some(a) => a@ == "FIA Document"@,
        None => false,
    }
    &&& e.image == (if images.len() > 0 {
        Some(images[0].url)
    } else {
        Option::<String>::None
    })
}

/// Every later embed carries the upstream link and one page image.
pub open spec fn spec_page_embed(e: Embed, doc: Document, image: Image) -> bool {
    &&& e.title is None
    &&& e.url == Some(doc.href)
    &&& e.description is None
    &&& e.color is None
    &&& e.thumbnail is None
    &&& e.timestamp is None
    &&& e.author is None
    &&& e.image == Some(image.url)
}

/// The whole message for one document and its (page-ordered) images.
pub open spec fn spec_document_message(m: ChatMessage, doc: Document, images: Seq<Image>) -> bool {
    &&& m.content@ == Seq::<char>::empty()
    &&& m.embeds@.len() == vstd::math::max(1, images.len() as int)
    &&& spec_main_embed(m.embeds@[0], doc, images)
    &&& forall|k: int| 1 <= k < images.len() ==> spec_page_embed(#[trigger] m.embeds@[k], doc, images[k])
}

/// Builds the message that delivers one document, from its row and its
/// page images.
pub fn create_message(document: &Document, images: &Vec<Image>) -> (m: ChatMessage)
    ensures
        spec_document_message(m, *document, images@),
{
    let mut description = String::from_str("[mirror](");
    description.append(document.mirror.as_str());
    description.append(")");
    let first_image: Option<String> = if images.len() > 0 {
        Some(images[0].url.clone())
    } else {
        None
    };
    let main = Embed {
        title: Some(document.title.clone()),
        url: Some(document.href.clone()),
        description: Some(description),
        color: Some(EMBED_COLOR),
        thumbnail: Some(String::from_str("https://static.ort.dev/fiadontsueme/fia_logo.png")),
        timestamp: Some(document.created_at),
        author: Some(String::from_str("FIA Document")),
        image: first_image,
    };
    let mut embeds: Vec<Embed> = Vec::new();
    embeds.push(main);
    let mut k: usize = 1;
    while k < images.len()
        invariant
            1 <= k,
            k <= vstd::math::max(1, images@.len() as int),
            embeds@.len() == k,
            spec_main_embed(embeds@[0], *document, images@),
            forall|j: int|
                1 <= j < k ==> spec_page_embed(#[trigger] embeds@[j], *document, images@[j]),
        decreases images@.len() - k,
    {
        embeds.push(
            Embed {
                title: None,
                url: Some(document.href.clone()),
                description: None,
                color: None,
                thumbnail: None,
                timestamp: None,
                author: None,
                image: Some(images[k].url.clone()),
            },
        );
        k = k + 1;
    }
    ChatMessage { content: String::new(), embeds }
}

/// Sets the mention content for a guild with a configured role:
/// `<@&{role}>`.
pub fn message_with_role(m: ChatMessage, role: &str) -> (r: ChatMessage)
    ensures
        r.content@ == "<@&"@ + role@ + ">"@,
        r.embeds@ == m.embeds@,
{
    let mut content = String::from_str("<@&");
    content.append(role);
    content.append(">");
    ChatMessage { content, embeds: m.embeds }
}

/// The name a per-(guild, event) thread is created with:
/// `{series} {year} {title}`.
pub fn thread_name(series: Series, year: i32, title: &str) -> (r: String)
    requires
        year >= 0,
    ensures
        r@ == series.spec_str() + " "@ + dec_of(year as int) + " "@ + title@,
{
    let mut r = String::from_str(series.as_str());
    r.append(" ");
    r.append(u64_to_dec(year as u64).as_str());
    r.append(" ");
    r.append(title);
    r
}

/// Days until a created thread auto-archives.
pub const THREAD_AUTO_ARCHIVE_DAYS: u64 = 3;

/// The audit-log reason given when a thread is created.
pub fn thread_audit_reason() -> (r: &'static str)
    ensures
        r@ == "New Approved FIA Event"@,
{
    "New Approved FIA Event"
}

/// How many days an allowed event stays before it is aged out.
pub const AGE_OUT_DAYS: u64 = 10;

/// Whether an event is old enough to age out: more than
/// [`AGE_OUT_DAYS`] days between its (nonnegative) creation time and
/// now.
pub open spec fn spec_aged(e: Event, now: i64) -> bool {
    0 <= e.created_at <= now && (now - e.created_at) / 86400 > AGE_OUT_DAYS as int
}

pub fn event_aged(e: &Event, now: i64) -> (r: bool)
    ensures
        r == spec_aged(*e, now),
{
    0 <= e.created_at && e.created_at <= now && (now - e.created_at) / 86400 > 10
}

/// What one publisher tick did, in order.
pub enum PubAction {
    ApprovalRequested { request_id: u64, event_id: u64 },
    EventAgedOut { event_id: u64 },
    ThreadCreated { guild_id: u64, event_id: u64, discord_id: String },
    DocumentPosted { document_id: u64 },
    Delivered { document_id: u64, guild_id: u64, channel: String },
    DeliveryFailed { document_id: u64, guild_id: u64, series: Series, error: ChatError },
    ChannelCleared { guild_id: u64, series: Series },
}

/// An element of a filtered sequence comes from the sequence and meets
/// the predicate.
pub proof fn lemma_filter_subset<A>(s: Seq<A>, pred: spec_fn(A) -> bool, x: A)
    requires
        s.filter(pred).contains(x),
    ensures
        s.contains(x),
        pred(x),
    decreases s.len(),
{
    reveal(Seq::filter);
    if s.len() > 0 {
        if pred(s.last()) && x == s.last() {
            assert(s[s.len() - 1] == x);
        } else {
            lemma_filter_subset(s.drop_last(), pred, x);
            let i = choose|i: int| 0 <= i < s.drop_last().len() && s.drop_last()[i] == x;
            assert(s[i] == x);
        }
    }
}

/// How one document row may move during a publisher tick: every field
/// keeps its value, and the status is unchanged or steps from
/// `ReadyToPost` to `Posted`.
pub open spec fn doc_step(a: Document, b: Document) -> bool {
    &&& b == (Document { status: b.status, ..a })
    &&& (b.status == a.status || (a.status == DocumentStatus::ReadyToPost && b.status
        == DocumentStatus::Posted))
}

pub open spec fn docs_evolve(pre: Seq<Document>, post: Seq<Document>) -> bool {
    &&& post.len() == pre.len()
    &&& forall|i: int| 0 <= i < pre.len() ==> doc_step(#[trigger] pre[i], #[trigger] post[i])
}

/// How one event row may move during a publisher tick: unchanged, or
/// aged out from `Allowed` to `Posted`.
pub open spec fn event_step(a: Event, b: Event, now: i64) -> bool {
    &&& b == (Event { status: b.status, ..a })
    &&& (b.status == a.status || (a.status == EventStatus::Allowed && b.status
        == EventStatus::Posted && spec_aged(a, now)))
}

pub open spec fn events_evolve(pre: Seq<Event>, post: Seq<Event>, now: i64) -> bool {
    &&& post.len() == pre.len()
    &&& forall|i: int| 0 <= i < pre.len() ==> event_step(#[trigger] pre[i], #[trigger] post[i], now)
}

/// How one guild row may move during a publisher tick: only its
/// per-series channels change, and each only to cleared.
pub open spec fn guild_step(a: Guild, b: Guild) -> bool {
    &&& b == (Guild { f1_channel: b.f1_channel, f2_channel: b.f2_channel, f3_channel: b.f3_channel, ..a })
    &&& (b.f1_channel == a.f1_channel || b.f1_channel is None)
    &&& (b.f2_channel == a.f2_channel || b.f2_channel is None)
    &&& (b.f3_channel == a.f3_channel || b.f3_channel is None)
}

pub open spec fn guilds_evolve(pre: Seq<Guild>, post: Seq<Guild>) -> bool {
    &&& post.len() == pre.len()
    &&& forall|i: int| 0 <= i < pre.len() ==> guild_step(#[trigger] pre[i], #[trigger] post[i])
}

/// A thread row appended during a tick: it belongs to an event that was
/// `Allowed` for the tick's year and to a guild whose settings for that
/// event's series name a channel and ask for threads.
pub open spec fn new_thread_ok(t: Thread, pre: Store, year: i32) -> bool {
    exists|ke: int, kg: int|
        {
            &&& 0 <= ke < pre.events@.len()
            &&& 0 <= kg < pre.guilds@.len()
            &&& (#[trigger] pre.events@[ke]).id == t.event_id
            &&& pre.events@[ke].status == EventStatus::Allowed
            &&& pre.events@[ke].year == year
            &&& (#[trigger] pre.guilds@[kg]).id == t.guild_id
            &&& pre.guilds@[kg].spec_settings_for_series(pre.events@[ke].series).1 is Some
            &&& pre.guilds@[kg].spec_settings_for_series(pre.events@[ke].series).2
        }
}

pub open spec fn threads_extend(pre: Seq<Thread>, post: Seq<Thread>) -> bool {
    &&& post.len() >= pre.len()
    &&& forall|i: int| 0 <= i < pre.len() ==> post[i] == pre[i]
}

/// An approval request appended during a tick: open, for an event that
/// was `NotAllowed` for the tick's year and had no request yet.
pub open spec fn new_request_ok(a: AllowRequest, pre: Store, year: i32) -> bool {
    &&& a.response == AllowRequestStatus::Open
    &&& exists|ke: int|
        0 <= ke < pre.events@.len() && (#[trigger] pre.events@[ke]).id == a.event_id
            && pre.events@[ke].status == EventStatus::NotAllowed && pre.events@[ke].year == year
    &&& forall|j: int|
        0 <= j < pre.allow_requests@.len() ==> (#[trigger] pre.allow_requests@[j]).event_id
            != a.event_id
}

pub open spec fn requests_extend(pre: Seq<AllowRequest>, post: Seq<AllowRequest>) -> bool {
    &&& post.len() >= pre.len()
    &&& forall|i: int| 0 <= i < pre.len() ==> post[i] == pre[i]
}

/// The claim each recorded action makes, stated against the pre-tick
/// store and the (still evolving) document and guild tables.
pub open spec fn action_ok(
    a: PubAction,
    pre: Store,
    cur_docs: Seq<Document>,
    cur_guilds: Seq<Guild>,
    year: i32,
) -> bool {
    match a {
        PubAction::Delivered { document_id, guild_id, channel } => exists|i: int, ke: int, kg: int|
            {
                &&& 0 <= i < pre.documents@.len()
                &&& 0 <= ke < pre.events@.len()
                &&& 0 <= kg < pre.guilds@.len()
                &&& i < cur_docs.len()
                &&& (#[trigger] pre.documents@[i]).id == document_id
                &&& pre.documents@[i].status == DocumentStatus::ReadyToPost
                &&& cur_docs[i].status == DocumentStatus::Posted
                &&& (#[trigger] pre.events@[ke]).id == pre.documents@[i].event_id
                &&& pre.events@[ke].status == EventStatus::Allowed
                &&& pre.events@[ke].year == year
                &&& (#[trigger] pre.guilds@[kg]).id == guild_id
                &&& pre.guilds@[kg].spec_settings_for_series(pre.events@[ke].series).1 is Some
            },
        PubAction::DeliveryFailed { document_id, guild_id, series, error } => {
            &&& (spec_is_permission_error(error) ==> forall|k: int|
                0 <= k < cur_guilds.len() && (#[trigger] cur_guilds[k]).id == guild_id ==> (
                #[trigger] cur_guilds[k]).spec_settings_for_series(series).1 is None)
            &&& exists|i: int, ke: int, kg: int|
                {
                    &&& 0 <= i < pre.documents@.len()
                    &&& 0 <= ke < pre.events@.len()
                    &&& 0 <= kg < pre.guilds@.len()
                    &&& i < cur_docs.len()
                    &&& (#[trigger] pre.documents@[i]).id == document_id
                    &&& pre.documents@[i].status == DocumentStatus::ReadyToPost
                    &&& cur_docs[i].status == DocumentStatus::Posted
                    &&& (#[trigger] pre.events@[ke]).id == pre.documents@[i].event_id
                    &&& pre.events@[ke].status == EventStatus::Allowed
                    &&& pre.events@[ke].year == year
                    &&& pre.events@[ke].series == series
                    &&& (#[trigger] pre.guilds@[kg]).id == guild_id
                    &&& pre.guilds@[kg].spec_settings_for_series(
                        pre.events@[ke].series,
                    ).1 is Some
                }
        },
        PubAction::ChannelCleared { guild_id, series } => forall|k: int|
            0 <= k < cur_guilds.len() && (#[trigger] cur_guilds[k]).id == guild_id ==> (#[trigger] cur_guilds[k]).spec_settings_for_series(series).1 is None,
        PubAction::DocumentPosted { document_id } => exists|i: int|
            {
                &&& 0 <= i < pre.documents@.len()
                &&& i < cur_docs.len()
                &&& (#[trigger] pre.documents@[i]).id == document_id
                &&& pre.documents@[i].status == DocumentStatus::ReadyToPost
                &&& cur_docs[i].status == DocumentStatus::Posted
            },
        PubAction::ThreadCreated { guild_id, event_id, discord_id } => exists|ke: int, kg: int|
            {
                &&& 0 <= ke < pre.events@.len()
                &&& 0 <= kg < pre.guilds@.len()
                &&& (#[trigger] pre.events@[ke]).id == event_id
                &&& pre.events@[ke].status == EventStatus::Allowed
                &&& pre.events@[ke].year == year
                &&& (#[trigger] pre.guilds@[kg]).id == guild_id
                &&& pre.guilds@[kg].spec_settings_for_series(pre.events@[ke].series).1 is Some
                &&& pre.guilds@[kg].spec_settings_for_series(pre.events@[ke].series).2
            },
        PubAction::ApprovalRequested { request_id, event_id } => exists|ke: int|
            0 <= ke < pre.events@.len() && (#[trigger] pre.events@[ke]).id == event_id
                && pre.events@[ke].status == EventStatus::NotAllowed && pre.events@[ke].year
                == year,
        PubAction::EventAgedOut { event_id } => true,
    }
}

pub open spec fn actions_ok(
    actions: Seq<PubAction>,
    pre: Store,
    cur_docs: Seq<Document>,
    cur_guilds: Seq<Guild>,
    year: i32,
) -> bool {
    forall|idx: int|
        0 <= idx < actions.len() ==> action_ok(#[trigger] actions[idx], pre, cur_docs, cur_guilds, year)
}

pub proof fn lemma_docs_evolve_trans(a: Seq<Document>, b: Seq<Document>, c: Seq<Document>)
    requires
        docs_evolve(a, b),
        docs_evolve(b, c),
    ensures
        docs_evolve(a, c),
{
    assert forall|i: int| 0 <= i < a.len() implies doc_step(#[trigger] a[i], #[trigger] c[i]) by {
        assert(doc_step(a[i], b[i]));
        assert(doc_step(b[i], c[i]));
    }
}

pub proof fn lemma_events_evolve_trans(a: Seq<Event>, b: Seq<Event>, c: Seq<Event>, now: i64)
    requires
        events_evolve(a, b, now),
        events_evolve(b, c, now),
    ensures
        events_evolve(a, c, now),
{
    assert forall|i: int| 0 <= i < a.len() implies event_step(#[trigger] a[i], #[trigger] c[i], now) by {
        assert(event_step(a[i], b[i], now));
        assert(event_step(b[i], c[i], now));
    }
}

pub proof fn lemma_guilds_evolve_trans(a: Seq<Guild>, b: Seq<Guild>, c: Seq<Guild>)
    requires
        guilds_evolve(a, b),
        guilds_evolve(b, c),
    ensures
        guilds_evolve(a, c),
{
    assert forall|i: int| 0 <= i < a.len() implies guild_step(#[trigger] a[i], #[trigger] c[i]) by {
        assert(guild_step(a[i], b[i]));
        assert(guild_step(b[i], c[i]));
    }
}

/// A sequence whose rows carry pairwise-distinct ids holds each value
/// at most once.
proof fn lemma_unique_doc_ids_count(s: Seq<Document>, v: Document)
    requires
        forall|i: int, j: int| 0 <= i < j < s.len() ==> (#[trigger] s[i]).id != (#[trigger] s[j]).id,
    ensures
        s.to_multiset().count(v) <= 1,
    decreases s.len(),
{
    broadcast use vstd::seq_lib::group_to_multiset_ensures;

    if s.len() > 0 {
        let t = s.drop_last();
        assert(s =~= t.push(s.last()));
        lemma_unique_doc_ids_count(t, v);
        if s.last() == v && t.to_multiset().count(v) >= 1 {
            assert(t.contains(v));
            let i = choose|i: int| 0 <= i < t.len() && t[i] == v;
            assert(s[i].id == s[s.len() - 1].id);
            assert(false);
        }
    }
}

proof fn lemma_unique_event_ids_count(s: Seq<Event>, v: Event)
    requires
        forall|i: int, j: int| 0 <= i < j < s.len() ==> (#[trigger] s[i]).id != (#[trigger] s[j]).id,
    ensures
        s.to_multiset().count(v) <= 1,
    decreases s.len(),
{
    broadcast use vstd::seq_lib::group_to_multiset_ensures;

    if s.len() > 0 {
        let t = s.drop_last();
        assert(s =~= t.push(s.last()));
        lemma_unique_event_ids_count(t, v);
        if s.last() == v && t.to_multiset().count(v) >= 1 {
            assert(t.contains(v));
            let i = choose|i: int| 0 <= i < t.len() && t[i] == v;
            assert(s[i].id == s[s.len() - 1].id);
            assert(false);
        }
    }
}

/// Filtering never multiplies occurrences.
proof fn lemma_filter_doc_count_le(s: Seq<Document>, pred: spec_fn(Document) -> bool, v: Document)
    ensures
        s.filter(pred).to_multiset().count(v) <= s.to_multiset().count(v),
    decreases s.len(),
{
    reveal(Seq::filter);
    broadcast use vstd::seq_lib::group_to_multiset_ensures;

    if s.len() > 0 {
        let t = s.drop_last();
        assert(s =~= t.push(s.last()));
        lemma_filter_doc_count_le(t, pred, v);
    }
}

proof fn lemma_filter_event_count_le(s: Seq<Event>, pred: spec_fn(Event) -> bool, v: Event)
    ensures
        s.filter(pred).to_multiset().count(v) <= s.to_multiset().count(v),
    decreases s.len(),
{
    reveal(Seq::filter);
    broadcast use vstd::seq_lib::group_to_multiset_ensures;

    if s.len() > 0 {
        let t = s.drop_last();
        assert(s =~= t.push(s.last()));
        lemma_filter_event_count_le(t, pred, v);
    }
}

/// Two positions holding the same value put its count at two.
proof fn lemma_two_doc_positions(s: Seq<Document>, k1: int, k2: int)
    requires
        0 <= k1 < k2 < s.len(),
        s[k1] == s[k2],
    ensures
        s.to_multiset().count(s[k1]) >= 2,
{
    broadcast use vstd::seq_lib::group_to_multiset_ensures;

    let t = s.remove(k1);
    assert(t[k2 - 1] == s[k2]);
    assert(t.contains(s[k1]));
    assert(t.to_multiset().count(s[k1]) >= 1);
}

proof fn lemma_two_event_positions(s: Seq<Event>, k1: int, k2: int)
    requires
        0 <= k1 < k2 < s.len(),
        s[k1] == s[k2],
    ensures
        s.to_multiset().count(s[k1]) >= 2,
{
    broadcast use vstd::seq_lib::group_to_multiset_ensures;

    let t = s.remove(k1);
    assert(t[k2 - 1] == s[k2]);
    assert(t.contains(s[k1]));
    assert(t.to_multiset().count(s[k1]) >= 1);
}

/// One queued destination belongs to a guild that, before the tick, had
/// a channel configured for the event's series.
pub open spec fn queued_ok(q: QueuedGuild, pre: Store, ev: Event) -> bool {
    &&& q.event_id == ev.id
    &&& exists|kg: int|
        0 <= kg < pre.guilds@.len() && (#[trigger] pre.guilds@[kg]).id == q.guild_id
            && pre.guilds@[kg].spec_settings_for_series(ev.series).1 is Some
}

/// Action claims survive further steps of the tick: documents only move
/// forward and channels only get cleared.
pub proof fn lemma_actions_stable(
    actions: Seq<PubAction>,
    pre: Store,
    d1: Seq<Document>,
    g1: Seq<Guild>,
    d2: Seq<Document>,
    g2: Seq<Guild>,
    year: i32,
)
    requires
        actions_ok(actions, pre, d1, g1, year),
        docs_evolve(d1, d2),
        guilds_evolve(g1, g2),
    ensures
        actions_ok(actions, pre, d2, g2, year),
{
    assert forall|idx: int| 0 <= idx < actions.len() implies action_ok(
        #[trigger] actions[idx],
        pre,
        d2,
        g2,
        year,
    ) by {
        assert(action_ok(actions[idx], pre, d1, g1, year));
        match actions[idx] {
            PubAction::Delivered { document_id, guild_id, channel } => {
                let (i, ke, kg) = choose|i: int, ke: int, kg: int|
                    {
                        &&& 0 <= i < pre.documents@.len()
                        &&& 0 <= ke < pre.events@.len()
                        &&& 0 <= kg < pre.guilds@.len()
                        &&& i < d1.len()
                        &&& (#[trigger] pre.documents@[i]).id == document_id
                        &&& pre.documents@[i].status == DocumentStatus::ReadyToPost
                        &&& d1[i].status == DocumentStatus::Posted
                        &&& (#[trigger] pre.events@[ke]).id == pre.documents@[i].event_id
                        &&& pre.events@[ke].status == EventStatus::Allowed
                        &&& pre.events@[ke].year == year
                        &&& (#[trigger] pre.guilds@[kg]).id == guild_id
                        &&& pre.guilds@[kg].spec_settings_for_series(
                            pre.events@[ke].series,
                        ).1 is Some
                    };
                assert(d2[i].status == DocumentStatus::Posted);
            },
            PubAction::DocumentPosted { document_id } => {
                let i = choose|i: int|
                    {
                        &&& 0 <= i < pre.documents@.len()
                        &&& i < d1.len()
                        &&& (#[trigger] pre.documents@[i]).id == document_id
                        &&& pre.documents@[i].status == DocumentStatus::ReadyToPost
                        &&& d1[i].status == DocumentStatus::Posted
                    };
                assert(d2[i].status == DocumentStatus::Posted);
            },
            PubAction::DeliveryFailed { document_id, guild_id, series, error } => {
                if spec_is_permission_error(error) {
                    assert forall|k: int|
                        0 <= k < g2.len() && (#[trigger] g2[k]).id == guild_id implies g2[k].spec_settings_for_series(series).1 is None by {
                        assert(guild_step(g1[k], g2[k]));
                        assert(g1[k].id == guild_id);
                        assert(g1[k].spec_settings_for_series(series).1 is None);
                    }
                }
                let (i, ke, kg) = choose|i: int, ke: int, kg: int|
                    {
                        &&& 0 <= i < pre.documents@.len()
                        &&& 0 <= ke < pre.events@.len()
                        &&& 0 <= kg < pre.guilds@.len()
                        &&& i < d1.len()
                        &&& (#[trigger] pre.documents@[i]).id == document_id
                        &&& pre.documents@[i].status == DocumentStatus::ReadyToPost
                        &&& d1[i].status == DocumentStatus::Posted
                        &&& (#[trigger] pre.events@[ke]).id == pre.documents@[i].event_id
                        &&& pre.events@[ke].status == EventStatus::Allowed
                        &&& pre.events@[ke].year == year
                        &&& pre.events@[ke].series == series
                        &&& (#[trigger] pre.guilds@[kg]).id == guild_id
                        &&& pre.guilds@[kg].spec_settings_for_series(
                            pre.events@[ke].series,
                        ).1 is Some
                    };
                assert(d2[i].status == DocumentStatus::Posted);
            },
            PubAction::ChannelCleared { guild_id, series } => {
                assert forall|k: int|
                    0 <= k < g2.len() && (#[trigger] g2[k]).id == guild_id implies g2[k].spec_settings_for_series(series).1 is None by {
                    assert(guild_step(g1[k], g2[k]));
                    assert(g1[k].id == guild_id);
                    assert(g1[k].spec_settings_for_series(series).1 is None);
                }
            },
            _ => {},
        }
    }
}

pub open spec fn actions_extend(pre: Seq<PubAction>, post: Seq<PubAction>) -> bool {
    &&& post.len() >= pre.len()
    &&& forall|i: int| 0 <= i < pre.len() ==> post[i] == pre[i]
}

/// No approval request for this event exists yet.
pub open spec fn no_request_for(reqs: Seq<AllowRequest>, event_id: u64) -> bool {
    forall|j: int| 0 <= j < reqs.len() ==> (#[trigger] reqs[j]).event_id != event_id
}

/// An event that is owed an approval request: `NotAllowed`, of the
/// tick's year, and no request recorded for it yet.
pub open spec fn needs_request(pre: Store, ke: int, year: i32) -> bool {
    &&& 0 <= ke < pre.events@.len()
    &&& pre.events@[ke].status == EventStatus::NotAllowed
    &&& pre.events@[ke].year == year
    &&& no_request_for(pre.allow_requests@, pre.events@[ke].id)
}

/// A request for this event stands in the appended region of the table.
pub open spec fn has_new_request_for(
    pre_len: int,
    reqs: Seq<AllowRequest>,
    event_id: u64,
) -> bool {
    exists|j: int| pre_len <= j < reqs.len() && (#[trigger] reqs[j]).event_id == event_id
}

pub open spec fn approval_action_for(
    actions: Seq<PubAction>,
    request_id: u64,
    event_id: u64,
) -> bool {
    exists|ai: int|
        0 <= ai < actions.len() && #[trigger] actions[ai] == (PubAction::ApprovalRequested {
            request_id,
            event_id,
        })
}

pub open spec fn posted_action_for(actions: Seq<PubAction>, document_id: u64) -> bool {
    exists|ai: int|
        0 <= ai < actions.len() && #[trigger] actions[ai] == (PubAction::DocumentPosted {
            document_id,
        })
}

/// A delivery was attempted: the trace holds a `Delivered` or a
/// `DeliveryFailed` for this document and guild.
pub open spec fn attempt_action_for(
    actions: Seq<PubAction>,
    document_id: u64,
    guild_id: u64,
) -> bool {
    exists|ai: int|
        0 <= ai < actions.len() && match #[trigger] actions[ai] {
            PubAction::Delivered { document_id: d, guild_id: g, channel } => d == document_id && g
                == guild_id,
            PubAction::DeliveryFailed { document_id: d, guild_id: g, series, error } => d
                == document_id && g == guild_id,
            _ => false,
        }
}

proof fn lemma_approval_action_extends(
    a: Seq<PubAction>,
    b: Seq<PubAction>,
    request_id: u64,
    event_id: u64,
)
    requires
        actions_extend(a, b),
        approval_action_for(a, request_id, event_id),
    ensures
        approval_action_for(b, request_id, event_id),
{
    let ai = choose|ai: int|
        0 <= ai < a.len() && #[trigger] a[ai] == (PubAction::ApprovalRequested {
            request_id,
            event_id,
        });
    assert(b[ai] == a[ai]);
}

proof fn lemma_posted_action_extends(a: Seq<PubAction>, b: Seq<PubAction>, document_id: u64)
    requires
        actions_extend(a, b),
        posted_action_for(a, document_id),
    ensures
        posted_action_for(b, document_id),
{
    let ai = choose|ai: int|
        0 <= ai < a.len() && #[trigger] a[ai] == (PubAction::DocumentPosted { document_id });
    assert(b[ai] == a[ai]);
}

proof fn lemma_attempt_action_extends(
    a: Seq<PubAction>,
    b: Seq<PubAction>,
    document_id: u64,
    guild_id: u64,
)
    requires
        actions_extend(a, b),
        attempt_action_for(a, document_id, guild_id),
    ensures
        attempt_action_for(b, document_id, guild_id),
{
    let ai = choose|ai: int|
        0 <= ai < a.len() && match #[trigger] a[ai] {
            PubAction::Delivered { document_id: d, guild_id: g, channel } => d == document_id && g
                == guild_id,
            PubAction::DeliveryFailed { document_id: d, guild_id: g, series, error } => d
                == document_id && g == guild_id,
            _ => false,
        };
    assert(b[ai] == a[ai]);
}

proof fn lemma_new_request_extends(
    pre_len: int,
    a: Seq<AllowRequest>,
    b: Seq<AllowRequest>,
    event_id: u64,
)
    requires
        b.len() >= a.len(),
        forall|k: int| 0 <= k < a.len() ==> b[k] == a[k],
        has_new_request_for(pre_len, a, event_id),
        pre_len >= 0,
    ensures
        has_new_request_for(pre_len, b, event_id),
{
    let j = choose|j: int| pre_len <= j < a.len() && (#[trigger] a[j]).event_id == event_id;
    assert(b[j] == a[j]);
}

/// A queued destination for this guild exists.
pub open spec fn queued_has_guild(q: Seq<QueuedGuild>, guild_id: u64) -> bool {
    exists|qj: int| 0 <= qj < q.len() && (#[trigger] q[qj]).guild_id == guild_id
}

/// Every thread-creation outcome reports a created thread.
pub open spec fn all_threads_created(ts: Seq<ThreadOutcome>) -> bool {
    forall|oi: int| 0 <= oi < ts.len() ==> (#[trigger] ts[oi]) is Created
}

/// A thread row for this guild and event exists.
pub open spec fn thread_row_for(threads: Seq<Thread>, guild_id: u64, event_id: u64) -> bool {
    exists|k: int|
        0 <= k < threads.len() && (#[trigger] threads[k]).guild_id == guild_id
            && threads[k].event_id == event_id
}

proof fn lemma_thread_row_extends(a: Seq<Thread>, b: Seq<Thread>, guild_id: u64, event_id: u64)
    requires
        b.len() >= a.len(),
        forall|k: int| 0 <= k < a.len() ==> b[k] == a[k],
        thread_row_for(a, guild_id, event_id),
    ensures
        thread_row_for(b, guild_id, event_id),
{
    let k = choose|k: int|
        0 <= k < a.len() && (#[trigger] a[k]).guild_id == guild_id && a[k].event_id == event_id;
    assert(b[k] == a[k]);
}

proof fn lemma_queued_guild_extends(a: Seq<QueuedGuild>, b: Seq<QueuedGuild>, guild_id: u64)
    requires
        b.len() >= a.len(),
        forall|k: int| 0 <= k < a.len() ==> b[k] == a[k],
        queued_has_guild(a, guild_id),
    ensures
        queued_has_guild(b, guild_id),
{
    let qj = choose|qj: int| 0 <= qj < a.len() && (#[trigger] a[qj]).guild_id == guild_id;
    assert(b[qj] == a[qj]);
}

/// A `ChannelCleared` action for this guild and series stands in the
/// trace.
pub open spec fn cleared_action_for(actions: Seq<PubAction>, guild_id: u64, series: Series) -> bool {
    exists|ai: int|
        0 <= ai < actions.len() && #[trigger] actions[ai] == (PubAction::ChannelCleared {
            guild_id,
            series,
        })
}

proof fn lemma_cleared_action_extends(
    a: Seq<PubAction>,
    b: Seq<PubAction>,
    guild_id: u64,
    series: Series,
)
    requires
        actions_extend(a, b),
        cleared_action_for(a, guild_id, series),
    ensures
        cleared_action_for(b, guild_id, series),
{
    let ai = choose|ai: int|
        0 <= ai < a.len() && #[trigger] a[ai] == (PubAction::ChannelCleared { guild_id, series });
    assert(b[ai] == a[ai]);
}

/// Whether any send outcome reports success.
pub open spec fn some_send_succeeded(outcomes: Seq<SendOutcome>) -> bool {
    exists|oi: int| 0 <= oi < outcomes.len() && (#[trigger] outcomes[oi]) is Sent
}

/// Two actions record a successful delivery of the same document to
/// the same guild.
pub open spec fn delivered_same_pair(a1: PubAction, a2: PubAction) -> bool {
    match (a1, a2) {
        (
            PubAction::Delivered { document_id: d1, guild_id: g1, channel: c1 },
            PubAction::Delivered { document_id: d2, guild_id: g2, channel: c2 },
        ) => d1 == d2 && g1 == g2,
        _ => false,
    }
}

/// The document a recorded attempt names, if the action is an attempt.
pub open spec fn attempt_doc_id(a: PubAction) -> Option<u64> {
    match a {
        PubAction::Delivered { document_id, guild_id, channel } => Some(document_id),
        PubAction::DeliveryFailed { document_id, guild_id, series, error } => Some(document_id),
        _ => None,
    }
}

/// The guild a recorded attempt names, if the action is an attempt.
pub open spec fn attempt_guild_id(a: PubAction) -> Option<u64> {
    match a {
        PubAction::Delivered { document_id, guild_id, channel } => Some(guild_id),
        PubAction::DeliveryFailed { document_id, guild_id, series, error } => Some(guild_id),
        _ => None,
    }
}

/// A recorded failure's error is one some send outcome returned — the
/// strong form that holds when the outcome list cannot be exhausted.
pub open spec fn attempt_from_outcomes(a: PubAction, send_outcomes: Seq<SendOutcome>) -> bool {
    match a {
        PubAction::DeliveryFailed { document_id, guild_id, series, error } => exists|oi: int|
            0 <= oi < send_outcomes.len() && #[trigger] send_outcomes[oi]
                == SendOutcome::SendFailed(error),
        _ => true,
    }
}

/// A recorded attempt matches the send outcomes: a delivery is backed
/// by a successful outcome, and a recorded failure carries either an
/// error some outcome returned or the plain `Other` of an exhausted
/// outcome list.
pub open spec fn attempt_matches_outcomes(a: PubAction, send_outcomes: Seq<SendOutcome>) -> bool {
    match a {
        PubAction::Delivered { document_id, guild_id, channel } => exists|oi: int|
            0 <= oi < send_outcomes.len() && (#[trigger] send_outcomes[oi]) is Sent,
        PubAction::DeliveryFailed { document_id, guild_id, series, error } => error
            == ChatError::Other || exists|oi: int|
            0 <= oi < send_outcomes.len() && #[trigger] send_outcomes[oi]
                == SendOutcome::SendFailed(error),
        _ => true,
    }
}

/// Whether an event value stands among the first `upto` entries of the
/// processed list.
pub open spec fn event_processed(allowed: Seq<Event>, upto: int, e: Event) -> bool {
    exists|ii: int| 0 <= ii < upto && (#[trigger] allowed[ii]) == e
}

/// A document the publisher owes work for: `ReadyToPost`, belonging to
/// an `Allowed` event of the tick's year in a supported series.
pub open spec fn doc_due(pre: Store, i: int, ke: int, year: i32) -> bool {
    &&& 0 <= i < pre.documents@.len()
    &&& pre.documents@[i].status == DocumentStatus::ReadyToPost
    &&& 0 <= ke < pre.events@.len()
    &&& pre.events@[ke].id == pre.documents@[i].event_id
    &&& pre.events@[ke].status == EventStatus::Allowed
    &&& pre.events@[ke].year == year
    &&& pre.events@[ke].series.spec_supported()
}

/// Gate discovery: opens an approval request, and records an action to
/// post its message, for every `NotAllowed` event of the year that has
/// none yet.
fn open_approval_requests(store: &mut Store, year: i32, now: i64, actions: &mut Vec<PubAction>)
    requires
        old(store).wf(),
        old(store).next_id as int + old(store).events@.len() <= u64::MAX as int,
    ensures
        final(store).wf(),
        final(store).events@ == old(store).events@,
        final(store).documents@ == old(store).documents@,
        final(store).images@ == old(store).images@,
        final(store).guilds@ == old(store).guilds@,
        final(store).threads@ == old(store).threads@,
        requests_extend(old(store).allow_requests@, final(store).allow_requests@),
        forall|i: int|
            old(store).allow_requests@.len() <= i < final(store).allow_requests@.len()
                ==> new_request_ok(#[trigger] final(store).allow_requests@[i], *old(store), year),
        final(store).next_id as int <= old(store).next_id as int + old(store).events@.len(),
        actions_extend(old(actions)@, final(actions)@),
        forall|i: int|
            old(actions)@.len() <= i < final(actions)@.len() ==> action_ok(
                #[trigger] final(actions)@[i],
                *old(store),
                old(store).documents@,
                old(store).guilds@,
                year,
            ),
        forall|ke: int|
            needs_request(*old(store), ke, year) ==> has_new_request_for(
                old(store).allow_requests@.len() as int,
                final(store).allow_requests@,
                old(store).events@[ke].id,
            ),
        forall|j: int|
            old(store).allow_requests@.len() <= j < final(store).allow_requests@.len()
                ==> approval_action_for(
                final(actions)@,
                (#[trigger] final(store).allow_requests@[j]).id,
                final(store).allow_requests@[j].event_id,
            ),
        forall|j1: int, j2: int|
            old(store).allow_requests@.len() <= j1 < j2 < final(store).allow_requests@.len() ==> (
            #[trigger] final(store).allow_requests@[j1]).event_id
                != (#[trigger] final(store).allow_requests@[j2]).event_id,
        forall|ai: int|
            old(actions)@.len() <= ai < final(actions)@.len()
                ==> !((#[trigger] final(actions)@[ai]) is Delivered) && !(final(actions)@[ai]
                is DeliveryFailed),
{
    let ghost pre = *old(store);
    let not_allowed = store.fetch_events_by_status(EventStatus::NotAllowed, year);
    proof {
        broadcast use vstd::seq_lib::group_filter_ensures;

    }
    let n = not_allowed.len();
    let mut i: usize = 0;
    while i < n
        invariant
            i <= n,
            pre.wf(),
            store.wf(),
            n == not_allowed@.len(),
            n <= pre.events@.len(),
            not_allowed@ == crate::store::spec_events_by_status(
                pre.events@,
                EventStatus::NotAllowed,
                year,
            ),
            pre.next_id as int + pre.events@.len() <= u64::MAX as int,
            store.events@ == pre.events@,
            store.documents@ == pre.documents@,
            store.images@ == pre.images@,
            store.guilds@ == pre.guilds@,
            store.threads@ == pre.threads@,
            requests_extend(pre.allow_requests@, store.allow_requests@),
            forall|j: int|
                pre.allow_requests@.len() <= j < store.allow_requests@.len() ==> new_request_ok(
                    #[trigger] store.allow_requests@[j],
                    pre,
                    year,
                ),
            store.next_id as int <= pre.next_id as int + i,
            actions_extend(old(actions)@, actions@),
            forall|j: int|
                old(actions)@.len() <= j < actions@.len() ==> action_ok(
                    #[trigger] actions@[j],
                    pre,
                    pre.documents@,
                    pre.guilds@,
                    year,
                ),
            forall|ii: int|
                0 <= ii < i ==> (no_request_for(pre.allow_requests@, (#[trigger] not_allowed@[ii]).id)
                    ==> has_new_request_for(
                    pre.allow_requests@.len() as int,
                    store.allow_requests@,
                    not_allowed@[ii].id,
                )),
            forall|j: int|
                pre.allow_requests@.len() <= j < store.allow_requests@.len()
                    ==> approval_action_for(
                    actions@,
                    (#[trigger] store.allow_requests@[j]).id,
                    store.allow_requests@[j].event_id,
                ),
            forall|j1: int, j2: int|
                pre.allow_requests@.len() <= j1 < j2 < store.allow_requests@.len() ==> (
                #[trigger] store.allow_requests@[j1]).event_id
                    != (#[trigger] store.allow_requests@[j2]).event_id,
            forall|ai: int|
                old(actions)@.len() <= ai < actions@.len() ==> !((#[trigger] actions@[ai])
                    is Delivered) && !(actions@[ai] is DeliveryFailed),
        decreases n - i,
    {
        let ev = &not_allowed[i];
        proof {
            lemma_filter_subset(
                pre.events@,
                |e: Event| e.status == EventStatus::NotAllowed && e.year == year,
                not_allowed@[i as int],
            );
        }
        let ghost reqs_b = store.allow_requests@;
        let ghost acts_b = actions@;
        let existing = store.has_allow_request(ev.id);
        match &existing {
            Some(found) => {
                proof {
                    let j = choose|j: int|
                        0 <= j < store.allow_requests@.len() && #[trigger] store.allow_requests@[j]
                            == *found && found.event_id == ev.id;
                    if j < pre.allow_requests@.len() {
                        assert(pre.allow_requests@[j].event_id == ev.id);
                        assert(!no_request_for(pre.allow_requests@, ev.id));
                    } else {
                        assert(has_new_request_for(
                            pre.allow_requests@.len() as int,
                            store.allow_requests@,
                            ev.id,
                        ));
                    }
                }
            },
            None => {
                let rid = store.create_allow_request(ev.id, now);
                actions.push(PubAction::ApprovalRequested { request_id: rid, event_id: ev.id });
                proof {
                    assert(store.allow_requests@.last().id == rid);
                    assert(store.allow_requests@.last().event_id == ev.id);
                    assert(actions@.last() == (PubAction::ApprovalRequested {
                        request_id: rid,
                        event_id: ev.id,
                    }));
                    assert forall|j: int|
                        pre.allow_requests@.len() <= j
                            < store.allow_requests@.len() implies approval_action_for(
                        actions@,
                        (#[trigger] store.allow_requests@[j]).id,
                        store.allow_requests@[j].event_id,
                    ) by {
                        if j < reqs_b.len() {
                            lemma_approval_action_extends(
                                acts_b,
                                actions@,
                                reqs_b[j].id,
                                reqs_b[j].event_id,
                            );
                        } else {
                            assert(0 <= actions@.len() - 1 < actions@.len());
                        }
                    }
                    assert forall|ii: int|
                        0 <= ii < i + 1 && no_request_for(
                            pre.allow_requests@,
                            (#[trigger] not_allowed@[ii]).id,
                        ) implies has_new_request_for(
                        pre.allow_requests@.len() as int,
                        store.allow_requests@,
                        not_allowed@[ii].id,
                    ) by {
                        if ii < i {
                            lemma_new_request_extends(
                                pre.allow_requests@.len() as int,
                                reqs_b,
                                store.allow_requests@,
                                not_allowed@[ii].id,
                            );
                        } else {
                            assert(store.allow_requests@.last().event_id == ev.id);
                        }
                    }
                }
            },
        }
        i = i + 1;
    }
    proof {
        assert forall|ke: int| needs_request(pre, ke, year) implies has_new_request_for(
            pre.allow_requests@.len() as int,
            store.allow_requests@,
            pre.events@[ke].id,
        ) by {
            broadcast use vstd::seq_lib::group_filter_ensures;

            assert(not_allowed@.contains(pre.events@[ke]));
            let ii = choose|ii: int|
                0 <= ii < not_allowed@.len() && not_allowed@[ii] == pre.events@[ke];
            assert(no_request_for(pre.allow_requests@, not_allowed@[ii].id));
        }
    }
}

/// Fan-out materialization for one allowed event: resolves each guild's
/// destination — its configured channel, or the per-(guild, event)
/// thread, created if missing — clearing the channel of guilds whose
/// thread creation hit a permission error. Every configured guild is
/// owed a queued destination: plain-channel guilds always, and
/// thread-grouped guilds whenever their thread row already exists or
/// the supplied outcomes keep creating threads.
fn materialize_guilds(
    store: &mut Store,
    Ghost(pre): Ghost<Store>,
    ev: &Event,
    year: i32,
    now: i64,
    thread_outcomes: &Vec<ThreadOutcome>,
    tix: &mut usize,
    actions: &mut Vec<PubAction>,
) -> (queued: Vec<QueuedGuild>)
    requires
        old(store).wf(),
        pre.wf(),
        ev.series.spec_supported(),
        ev.status == EventStatus::Allowed,
        ev.year == year,
        exists|ke: int| 0 <= ke < pre.events@.len() && #[trigger] pre.events@[ke] == *ev,
        docs_evolve(pre.documents@, old(store).documents@),
        guilds_evolve(pre.guilds@, old(store).guilds@),
        old(store).next_id as int + old(store).guilds@.len() <= u64::MAX as int,
        actions_ok(old(actions)@, pre, old(store).documents@, old(store).guilds@, year),
    ensures
        final(store).wf(),
        final(store).events@ == old(store).events@,
        final(store).documents@ == old(store).documents@,
        final(store).images@ == old(store).images@,
        final(store).allow_requests@ == old(store).allow_requests@,
        guilds_evolve(old(store).guilds@, final(store).guilds@),
        threads_extend(old(store).threads@, final(store).threads@),
        forall|i: int|
            old(store).threads@.len() <= i < final(store).threads@.len() ==> new_thread_ok(
                #[trigger] final(store).threads@[i],
                pre,
                year,
            ),
        final(store).next_id as int <= old(store).next_id as int + old(store).guilds@.len(),
        actions_extend(old(actions)@, final(actions)@),
        actions_ok(final(actions)@, pre, final(store).documents@, final(store).guilds@, year),
        forall|ai: int|
            old(actions)@.len() <= ai < final(actions)@.len()
                ==> !((#[trigger] final(actions)@[ai]) is Delivered) && !(final(actions)@[ai]
                is DeliveryFailed),
        queued@.len() <= old(store).guilds@.len(),
        forall|i: int| 0 <= i < queued@.len() ==> queued_ok(#[trigger] queued@[i], pre, *ev),
        forall|q1: int, q2: int|
            0 <= q1 < q2 < queued@.len() ==> (#[trigger] queued@[q1]).guild_id != (
            #[trigger] queued@[q2]).guild_id,
        forall|kg: int|
            0 <= kg < old(store).guilds@.len() && (
            #[trigger] old(store).guilds@[kg]).spec_settings_for_series(ev.series).1 is Some && !old(
                store,
            ).guilds@[kg].spec_settings_for_series(ev.series).2 ==> queued_has_guild(
                queued@,
                old(store).guilds@[kg].id,
            ),
        *final(tix) as int <= *old(tix) as int + old(store).guilds@.len(),
        forall|kg: int, series: Series|
            #![trigger old(store).guilds@[kg].spec_settings_for_series(series)]
            0 <= kg < old(store).guilds@.len() && old(store).guilds@[kg].spec_settings_for_series(
                series,
            ).1 is Some && final(store).guilds@[kg].spec_settings_for_series(series).1 is None
                ==> cleared_action_for(final(actions)@, old(store).guilds@[kg].id, series),

        forall|kg: int|
            0 <= kg < old(store).guilds@.len() && (
            #[trigger] old(store).guilds@[kg]).spec_settings_for_series(ev.series).1 is Some && old(
                store,
            ).guilds@[kg].spec_settings_for_series(ev.series).2 && thread_row_for(
                old(store).threads@,
                old(store).guilds@[kg].id,
                ev.id,
            ) ==> queued_has_guild(queued@, old(store).guilds@[kg].id),
        (all_threads_created(thread_outcomes@) && *old(tix) as int + old(store).guilds@.len()
            <= thread_outcomes@.len()) ==> forall|kg: int|
            0 <= kg < old(store).guilds@.len() && (
            #[trigger] old(store).guilds@[kg]).spec_settings_for_series(ev.series).1 is Some && old(
                store,
            ).guilds@[kg].spec_settings_for_series(ev.series).2 ==> queued_has_guild(
                queued@,
                old(store).guilds@[kg].id,
            ) && thread_row_for(final(store).threads@, old(store).guilds@[kg].id, ev.id),
{
    let ghost entry = *old(store);
    let guilds = store.fetch_guilds();
    let mut queued: Vec<QueuedGuild> = Vec::new();
    let n = guilds.len();
    let mut i: usize = 0;
    while i < n
        invariant
            i <= n,
            pre.wf(),
            entry.wf(),
            store.wf(),
            n == guilds@.len(),
            n == entry.guilds@.len(),
            guilds@ == entry.guilds@,
            ev.series.spec_supported(),
            ev.status == EventStatus::Allowed,
            ev.year == year,
            exists|ke: int| 0 <= ke < pre.events@.len() && #[trigger] pre.events@[ke] == *ev,
            docs_evolve(pre.documents@, entry.documents@),
            guilds_evolve(pre.guilds@, entry.guilds@),
            entry.next_id as int + entry.guilds@.len() <= u64::MAX as int,
            store.events@ == entry.events@,
            store.documents@ == entry.documents@,
            store.images@ == entry.images@,
            store.allow_requests@ == entry.allow_requests@,
            guilds_evolve(entry.guilds@, store.guilds@),
            threads_extend(entry.threads@, store.threads@),
            forall|j: int|
                entry.threads@.len() <= j < store.threads@.len() ==> new_thread_ok(
                    #[trigger] store.threads@[j],
                    pre,
                    year,
                ),
            store.next_id as int <= entry.next_id as int + i,
            actions_extend(old(actions)@, actions@),
            actions_ok(actions@, pre, store.documents@, store.guilds@, year),
            forall|ai: int|
                old(actions)@.len() <= ai < actions@.len() ==> !((#[trigger] actions@[ai])
                    is Delivered) && !(actions@[ai] is DeliveryFailed),
            queued@.len() <= i,
            forall|j: int| 0 <= j < queued@.len() ==> queued_ok(#[trigger] queued@[j], pre, *ev),
            forall|q1: int, q2: int|
                0 <= q1 < q2 < queued@.len() ==> (#[trigger] queued@[q1]).guild_id != (
                #[trigger] queued@[q2]).guild_id,
            forall|qj: int|
                0 <= qj < queued@.len() ==> exists|kg: int|
                    0 <= kg < i && (#[trigger] entry.guilds@[kg]).id == (
                    #[trigger] queued@[qj]).guild_id,
            forall|kg: int|
                0 <= kg < i && (#[trigger] entry.guilds@[kg]).spec_settings_for_series(
                    ev.series,
                ).1 is Some && !entry.guilds@[kg].spec_settings_for_series(ev.series).2
                    ==> queued_has_guild(queued@, entry.guilds@[kg].id),
            *tix as int <= *old(tix) as int + i,
            forall|kg: int, series: Series|
                #![trigger entry.guilds@[kg].spec_settings_for_series(series)]
                0 <= kg < entry.guilds@.len() && entry.guilds@[kg].spec_settings_for_series(
                    series,
                ).1 is Some && store.guilds@[kg].spec_settings_for_series(series).1 is None
                    ==> cleared_action_for(actions@, entry.guilds@[kg].id, series),
            forall|kg: int|
                0 <= kg < i && (#[trigger] entry.guilds@[kg]).spec_settings_for_series(
                    ev.series,
                ).1 is Some && entry.guilds@[kg].spec_settings_for_series(ev.series).2
                    && thread_row_for(entry.threads@, entry.guilds@[kg].id, ev.id)
                    ==> queued_has_guild(queued@, entry.guilds@[kg].id),
            (all_threads_created(thread_outcomes@) && *old(tix) as int + entry.guilds@.len()
                <= thread_outcomes@.len()) ==> forall|kg: int|
                0 <= kg < i && (#[trigger] entry.guilds@[kg]).spec_settings_for_series(
                    ev.series,
                ).1 is Some && entry.guilds@[kg].spec_settings_for_series(ev.series).2
                    ==> queued_has_guild(queued@, entry.guilds@[kg].id) && thread_row_for(
                    store.threads@,
                    entry.guilds@[kg].id,
                    ev.id,
                ),
        decreases n - i,
    {
        let ghost queued_b = queued@;
        let ghost threads_b = store.threads@;
        let ghost g_head = store.guilds@;
        let ghost acts_head_m = actions@;
        let g = &guilds[i];
        proof {
            assert(guild_step(pre.guilds@[i as int], entry.guilds@[i as int]));
            assert(guild_step(entry.guilds@[i as int], store.guilds@[i as int]));
        }
        let (role, channel, use_threads) = g.settings_for_series(ev.series);
        match channel {
            None => {},
            Some(ch) => {
                proof {
                    assert(pre.guilds@[i as int].id == g.id);
                    assert(pre.guilds@[i as int].spec_settings_for_series(ev.series).1 is Some);
                }
                let dest: Option<String> = if !use_threads {
                    Some(ch.clone())
                } else {
                    match store.fetch_thread_for_guild_and_event(g.id, ev.id) {
                        Some(t) => {
                            proof {
                                assert(thread_row_for(store.threads@, g.id, ev.id));
                            }
                            Some(t.discord_id)
                        },
                        None => {
                            proof {
                                if thread_row_for(entry.threads@, g.id, ev.id) {
                                    lemma_thread_row_extends(
                                        entry.threads@,
                                        store.threads@,
                                        g.id,
                                        ev.id,
                                    );
                                    assert(false);
                                }
                            }
                            let ghost tix_old = *tix;
                            let oc: ThreadOutcome = if *tix < thread_outcomes.len() {
                                let o = clone_thread_outcome(&thread_outcomes[*tix]);
                                *tix = *tix + 1;
                                o
                            } else {
                                proof {
                                    if all_threads_created(thread_outcomes@) && *old(tix) as int
                                        + entry.guilds@.len() <= thread_outcomes@.len() {
                                        assert((tix_old as int) < thread_outcomes@.len());
                                        assert(false);
                                    }
                                }
                                ThreadOutcome::ThreadFailed(ChatError::Other)
                            };
                            match oc {
                                ThreadOutcome::Created(did) => {
                                    let ghost t_before = store.threads@;
                                    store.insert_new_thread(did.clone(), ch.clone(), ev.id, g.id, now);
                                    proof {
                                        assert(pre.guilds@[i as int].spec_settings_for_series(
                                            ev.series,
                                        ).2 == use_threads);
                                        assert(store.threads@ == t_before.push(
                                            store.threads@[store.threads@.len() - 1],
                                        ));
                                        assert(new_thread_ok(
                                            store.threads@[store.threads@.len() - 1],
                                            pre,
                                            year,
                                        ));
                                    }
                                    actions.push(
                                        (PubAction::ThreadCreated {
                                            guild_id: g.id,
                                            event_id: ev.id,
                                            discord_id: did.clone(),
                                        }),
                                    );
                                    proof {
                                        assert(action_ok(
                                            actions@[actions@.len() - 1],
                                            pre,
                                            store.documents@,
                                            store.guilds@,
                                            year,
                                        ));
                                        assert(thread_row_for(store.threads@, g.id, ev.id));
                                    }
                                    Some(did)
                                },
                                ThreadOutcome::ThreadFailed(e) => {
                                    proof {
                                        if all_threads_created(thread_outcomes@) && *old(
                                            tix,
                                        ) as int + entry.guilds@.len() <= thread_outcomes@.len() {
                                            assert((tix_old as int) < thread_outcomes@.len());
                                            assert(thread_outcomes@[tix_old as int] is Created);
                                            assert(false);
                                        }
                                    }
                                    if is_permission_error(e) {
                                        let ghost g_before = store.guilds@;
                                        store.clear_guild_settings(g.id, ev.series);
                                        proof {
                                            assert forall|k: int|
                                                0 <= k < g_before.len() implies guild_step(
                                                #[trigger] g_before[k],
                                                #[trigger] store.guilds@[k],
                                            ) by {}
                                            lemma_guilds_evolve_trans(
                                                entry.guilds@,
                                                g_before,
                                                store.guilds@,
                                            );
                                            lemma_actions_stable(
                                                actions@,
                                                pre,
                                                store.documents@,
                                                g_before,
                                                store.documents@,
                                                store.guilds@,
                                                year,
                                            );
                                        }
                                        let ghost acts_pre_clear = actions@;
                                        actions.push(
                                            (PubAction::ChannelCleared {
                                                guild_id: g.id,
                                                series: ev.series,
                                            }),
                                        );
                                        proof {
                                            assert forall|k: int|
                                                0 <= k < store.guilds@.len() && (
                                                #[trigger] store.guilds@[k]).id == g.id implies store.guilds@[k].spec_settings_for_series(
                                                ev.series,
                                            ).1 is None by {}
                                            assert(actions@.last() == (PubAction::ChannelCleared {
                                                guild_id: g.id,
                                                series: ev.series,
                                            }));
                                            assert(cleared_action_for(actions@, g.id, ev.series));
                                            assert forall|kg: int, series: Series|
                                                #![trigger entry.guilds@[kg].spec_settings_for_series(series)]
                                                0 <= kg < entry.guilds@.len()
                                                    && entry.guilds@[kg].spec_settings_for_series(
                                                    series,
                                                ).1 is Some
                                                    && store.guilds@[kg].spec_settings_for_series(
                                                    series,
                                                ).1 is None implies cleared_action_for(
                                                actions@,
                                                entry.guilds@[kg].id,
                                                series,
                                            ) by {
                                                if g_before[kg].spec_settings_for_series(
                                                    series,
                                                ).1 is None {
                                                    lemma_cleared_action_extends(
                                                        acts_pre_clear,
                                                        actions@,
                                                        entry.guilds@[kg].id,
                                                        series,
                                                    );
                                                } else {
                                                    assert(store.guilds@[kg]
                                                        == spec_clear_channel(
                                                        g_before[kg],
                                                        ev.series,
                                                    ) || store.guilds@[kg] == g_before[kg]);
                                                    assert(g_before[kg].id == g.id);
                                                    assert(series == ev.series);
                                                    assert(entry.guilds@[kg].id == g.id);
                                                }
                                            }
                                        }
                                    }
                                    None
                                },
                            }
                        },
                    }
                };
                match dest {
                    None => {},
                    Some(d) => {
                        queued.push(
                            QueuedGuild {
                                guild_id: g.id,
                                guild_discord_id: g.discord_id.clone(),
                                channel_to_post: d,
                                role: clone_opt_str(&role),
                                event_id: ev.id,
                            },
                        );
                        proof {
                            assert(queued@.last().guild_id == g.id);
                            assert(entry.guilds@[i as int].id == g.id);
                            assert forall|qj: int|
                                0 <= qj < queued@.len() implies exists|kg: int|
                                0 <= kg < i + 1 && (#[trigger] entry.guilds@[kg]).id == (
                                #[trigger] queued@[qj]).guild_id by {
                                if qj < queued_b.len() {
                                    assert(queued@[qj] == queued_b[qj]);
                                    let kg = choose|kg: int|
                                        0 <= kg < i && (#[trigger] entry.guilds@[kg]).id
                                            == queued_b[qj].guild_id;
                                    assert(0 <= kg < i + 1 && entry.guilds@[kg].id
                                        == queued@[qj].guild_id);
                                } else {
                                    assert(entry.guilds@[i as int].id == queued@[qj].guild_id);
                                }
                            }
                            assert forall|q1: int, q2: int|
                                0 <= q1 < q2 < queued@.len() implies (
                            #[trigger] queued@[q1]).guild_id != (
                            #[trigger] queued@[q2]).guild_id by {
                                if q2 == queued@.len() - 1 {
                                    assert(queued@[q1] == queued_b[q1]);
                                    let kg = choose|kg: int|
                                        0 <= kg < i && (#[trigger] entry.guilds@[kg]).id
                                            == queued_b[q1].guild_id;
                                    assert(entry.guilds@[kg].id != entry.guilds@[i as int].id);
                                } else {
                                    assert(queued@[q1] == queued_b[q1]);
                                    assert(queued@[q2] == queued_b[q2]);
                                }
                            }
                        }
                    },
                }
            },
        }
        proof {
            assert forall|kg: int|
                0 <= kg < i + 1 && (#[trigger] entry.guilds@[kg]).spec_settings_for_series(
                    ev.series,
                ).1 is Some && !entry.guilds@[kg].spec_settings_for_series(ev.series).2
                    implies queued_has_guild(queued@, entry.guilds@[kg].id) by {
                if kg < i {
                    let qj = choose|qj: int|
                        0 <= qj < queued_b.len() && (#[trigger] queued_b[qj]).guild_id
                            == entry.guilds@[kg].id;
                    assert(queued@[qj] == queued_b[qj]);
                }
            }
            assert forall|kg: int|
                0 <= kg < i + 1 && (#[trigger] entry.guilds@[kg]).spec_settings_for_series(
                    ev.series,
                ).1 is Some && entry.guilds@[kg].spec_settings_for_series(ev.series).2
                    && thread_row_for(
                    entry.threads@,
                    entry.guilds@[kg].id,
                    ev.id,
                ) implies queued_has_guild(queued@, entry.guilds@[kg].id) by {
                if kg < i {
                    lemma_queued_guild_extends(queued_b, queued@, entry.guilds@[kg].id);
                }
            }
            assert forall|kg: int, series: Series|
                #![trigger entry.guilds@[kg].spec_settings_for_series(series)]
                0 <= kg < entry.guilds@.len() && entry.guilds@[kg].spec_settings_for_series(
                    series,
                ).1 is Some && store.guilds@[kg].spec_settings_for_series(series).1 is None
                    implies cleared_action_for(actions@, entry.guilds@[kg].id, series) by {
                if g_head[kg].spec_settings_for_series(series).1 is None {
                    lemma_cleared_action_extends(
                        acts_head_m,
                        actions@,
                        entry.guilds@[kg].id,
                        series,
                    );
                }
            }
            if all_threads_created(thread_outcomes@) && *old(tix) as int + entry.guilds@.len()
                <= thread_outcomes@.len() {
                assert forall|kg: int|
                    0 <= kg < i + 1 && (#[trigger] entry.guilds@[kg]).spec_settings_for_series(
                        ev.series,
                    ).1 is Some && entry.guilds@[kg].spec_settings_for_series(ev.series).2
                        implies queued_has_guild(queued@, entry.guilds@[kg].id) && thread_row_for(
                    store.threads@,
                    entry.guilds@[kg].id,
                    ev.id,
                ) by {
                    if kg < i {
                        lemma_queued_guild_extends(queued_b, queued@, entry.guilds@[kg].id);
                        lemma_thread_row_extends(
                            threads_b,
                            store.threads@,
                            entry.guilds@[kg].id,
                            ev.id,
                        );
                    }
                }
            }
        }
        i = i + 1;
    }
    queued
}

fn clone_thread_outcome(o: &ThreadOutcome) -> (r: ThreadOutcome)
    ensures
        r == *o,
{
    match o {
        ThreadOutcome::Created(s) => ThreadOutcome::Created(s.clone()),
        ThreadOutcome::ThreadFailed(e) => ThreadOutcome::ThreadFailed(*e),
    }
}

fn clone_opt_str(o: &Option<String>) -> (r: Option<String>)
    ensures
        r == *o,
{
    match o {
        Some(s) => Some(s.clone()),
        None => None,
    }
}

/// Document delivery for one allowed event: every `ReadyToPost`
/// document is marked `Posted` first — so a retried tick cannot deliver
/// it again — then sent to each queued guild; a permission error clears
/// that guild's channel for the series.
fn deliver_documents(
    store: &mut Store,
    Ghost(pre): Ghost<Store>,
    ev: &Event,
    year: i32,
    queued: &Vec<QueuedGuild>,
    send_outcomes: &Vec<SendOutcome>,
    six: &mut usize,
    actions: &mut Vec<PubAction>,
)
    requires
        old(store).wf(),
        pre.wf(),
        ev.series.spec_supported(),
        ev.status == EventStatus::Allowed,
        ev.year == year,
        exists|ke: int| 0 <= ke < pre.events@.len() && #[trigger] pre.events@[ke] == *ev,
        docs_evolve(pre.documents@, old(store).documents@),
        guilds_evolve(pre.guilds@, old(store).guilds@),
        actions_ok(old(actions)@, pre, old(store).documents@, old(store).guilds@, year),
        forall|j: int| 0 <= j < queued@.len() ==> queued_ok(#[trigger] queued@[j], pre, *ev),
        forall|q1: int, q2: int|
            0 <= q1 < q2 < queued@.len() ==> (#[trigger] queued@[q1]).guild_id != (
            #[trigger] queued@[q2]).guild_id,
    ensures
        final(store).wf(),
        final(store).events@ == old(store).events@,
        final(store).images@ == old(store).images@,
        final(store).threads@ == old(store).threads@,
        final(store).allow_requests@ == old(store).allow_requests@,
        final(store).next_id == old(store).next_id,
        docs_evolve(old(store).documents@, final(store).documents@),
        guilds_evolve(old(store).guilds@, final(store).guilds@),
        actions_extend(old(actions)@, final(actions)@),
        actions_ok(final(actions)@, pre, final(store).documents@, final(store).guilds@, year),
        forall|i: int|
            0 <= i < old(store).documents@.len() && (#[trigger] old(store).documents@[i]).event_id
                == ev.id && old(store).documents@[i].status == DocumentStatus::ReadyToPost
                ==> final(store).documents@[i].status == DocumentStatus::Posted
                && posted_action_for(
                final(actions)@,
                old(store).documents@[i].id,
            ),
        forall|i: int, qj: int|
            0 <= i < old(store).documents@.len() && (#[trigger] old(store).documents@[i]).event_id
                == ev.id && old(store).documents@[i].status == DocumentStatus::ReadyToPost && 0
                <= qj < queued@.len() ==> attempt_action_for(
                final(actions)@,
                old(store).documents@[i].id,
                (#[trigger] queued@[qj]).guild_id,
            ),
        forall|i: int|
            0 <= i < old(store).documents@.len() && (#[trigger] old(store).documents@[i]).event_id
                != ev.id ==> final(store).documents@[i] == old(store).documents@[i],
        !some_send_succeeded(send_outcomes@) ==> forall|ai: int|
            old(actions)@.len() <= ai < final(actions)@.len() ==> !((
            #[trigger] final(actions)@[ai]) is Delivered),
        forall|kg: int, series: Series|
            #![trigger old(store).guilds@[kg].spec_settings_for_series(series)]
            0 <= kg < old(store).guilds@.len() && old(store).guilds@[kg].spec_settings_for_series(
                series,
            ).1 is Some && final(store).guilds@[kg].spec_settings_for_series(series).1 is None
                ==> cleared_action_for(final(actions)@, old(store).guilds@[kg].id, series),
        forall|ai: int|
            old(actions)@.len() <= ai < final(actions)@.len() ==> attempt_matches_outcomes(
                #[trigger] final(actions)@[ai],
                send_outcomes@,
            ),
        *final(six) as int <= *old(six) as int + old(store).documents@.len() * queued@.len(),
        (*old(six) as int + old(store).documents@.len() * queued@.len() <= send_outcomes@.len())
            ==> forall|ai: int|
            old(actions)@.len() <= ai < final(actions)@.len() ==> attempt_from_outcomes(
                #[trigger] final(actions)@[ai],
                send_outcomes@,
            ),
        forall|a1: int, a2: int|
            old(actions)@.len() <= a1 < a2 < final(actions)@.len() ==> !delivered_same_pair(
                #[trigger] final(actions)@[a1],
                #[trigger] final(actions)@[a2],
            ),
        forall|ai: int|
            old(actions)@.len() <= ai < final(actions)@.len() && attempt_doc_id(
                #[trigger] final(actions)@[ai],
            ) is Some ==> exists|i3: int|
                0 <= i3 < pre.documents@.len() && (#[trigger] pre.documents@[i3]).id
                    == attempt_doc_id(final(actions)@[ai])->Some_0 && pre.documents@[i3].event_id
                    == ev.id,
{
    let ghost entry = *old(store);
    let docs = store.fetch_docs_for_event(ev.id);
    proof {
        broadcast use vstd::seq_lib::group_filter_ensures;
        broadcast use vstd::seq_lib::group_to_multiset_ensures;

        assert(docs@.to_multiset().len() == docs@.len());
        assert(crate::store::spec_ready_docs(entry.documents@, ev.id).to_multiset().len()
            == crate::store::spec_ready_docs(entry.documents@, ev.id).len());
        assert(docs@.len() <= entry.documents@.len());
        assert forall|k1: int, k2: int| 0 <= k1 < k2 < docs@.len() implies (
        #[trigger] docs@[k1]).id != (#[trigger] docs@[k2]).id by {
            let pred = |x: Document| x.event_id == ev.id && x.status
                == DocumentStatus::ReadyToPost;
            if docs@[k1].id == docs@[k2].id {
                if docs@[k1] == docs@[k2] {
                    lemma_two_doc_positions(docs@, k1, k2);
                    lemma_filter_doc_count_le(entry.documents@, pred, docs@[k1]);
                    lemma_unique_doc_ids_count(entry.documents@, docs@[k1]);
                    assert(false);
                } else {
                    assert(docs@.contains(docs@[k1]));
                    assert(docs@.contains(docs@[k2]));
                    assert(docs@.to_multiset().count(docs@[k1]) > 0);
                    assert(docs@.to_multiset().count(docs@[k2]) > 0);
                    assert(crate::store::spec_ready_docs(entry.documents@, ev.id).contains(
                        docs@[k1],
                    ));
                    assert(crate::store::spec_ready_docs(entry.documents@, ev.id).contains(
                        docs@[k2],
                    ));
                    lemma_filter_subset(entry.documents@, pred, docs@[k1]);
                    lemma_filter_subset(entry.documents@, pred, docs@[k2]);
                    let i1 = choose|i1: int|
                        0 <= i1 < entry.documents@.len() && entry.documents@[i1] == docs@[k1];
                    let i2 = choose|i2: int|
                        0 <= i2 < entry.documents@.len() && entry.documents@[i2] == docs@[k2];
                    assert(i1 != i2);
                    assert(entry.documents@[i1].id != entry.documents@[i2].id);
                    assert(false);
                }
            }
        }
    }
    let nd = docs.len();
    let ghost nq_total = queued@.len() as int;
    let mut di: usize = 0;
    while di < nd
        invariant
            di <= nd,
            pre.wf(),
            entry.wf(),
            store.wf(),
            nd == docs@.len(),
            ev.series.spec_supported(),
            ev.status == EventStatus::Allowed,
            ev.year == year,
            exists|ke: int| 0 <= ke < pre.events@.len() && #[trigger] pre.events@[ke] == *ev,
            docs@.to_multiset() == crate::store::spec_ready_docs(
                entry.documents@,
                ev.id,
            ).to_multiset(),
            docs_evolve(pre.documents@, entry.documents@),
            guilds_evolve(pre.guilds@, entry.guilds@),
            store.events@ == entry.events@,
            store.images@ == entry.images@,
            store.threads@ == entry.threads@,
            store.allow_requests@ == entry.allow_requests@,
            store.next_id == entry.next_id,
            docs_evolve(entry.documents@, store.documents@),
            guilds_evolve(entry.guilds@, store.guilds@),
            actions_extend(old(actions)@, actions@),
            actions_ok(actions@, pre, store.documents@, store.guilds@, year),
            forall|j: int| 0 <= j < queued@.len() ==> queued_ok(#[trigger] queued@[j], pre, *ev),
            forall|q1: int, q2: int|
                0 <= q1 < q2 < queued@.len() ==> (#[trigger] queued@[q1]).guild_id != (
                #[trigger] queued@[q2]).guild_id,
            forall|k: int, i2: int|
                0 <= k < di && 0 <= i2 < store.documents@.len() && (
                #[trigger] store.documents@[i2]).id == (#[trigger] docs@[k]).id
                    ==> store.documents@[i2].status == DocumentStatus::Posted,
            forall|k: int| 0 <= k < di ==> posted_action_for(actions@, (#[trigger] docs@[k]).id),
            forall|k: int, qj: int|
                0 <= k < di && 0 <= qj < queued@.len() ==> attempt_action_for(
                    actions@,
                    (#[trigger] docs@[k]).id,
                    (#[trigger] queued@[qj]).guild_id,
                ),
            forall|i2: int|
                0 <= i2 < entry.documents@.len() && (#[trigger] entry.documents@[i2]).event_id
                    != ev.id ==> store.documents@[i2] == entry.documents@[i2],
            !some_send_succeeded(send_outcomes@) ==> forall|ai: int|
                old(actions)@.len() <= ai < actions@.len() ==> !((#[trigger] actions@[ai])
                    is Delivered),
            forall|ai: int|
                old(actions)@.len() <= ai < actions@.len() ==> attempt_matches_outcomes(
                    #[trigger] actions@[ai],
                    send_outcomes@,
                ),
            nd <= entry.documents@.len(),
            nq_total == queued@.len(),
            forall|k1: int, k2: int|
                0 <= k1 < k2 < docs@.len() ==> (#[trigger] docs@[k1]).id != (
                #[trigger] docs@[k2]).id,
            forall|a1: int, a2: int|
                old(actions)@.len() <= a1 < a2 < actions@.len() ==> !delivered_same_pair(
                    #[trigger] actions@[a1],
                    #[trigger] actions@[a2],
                ),
            forall|ai: int|
                old(actions)@.len() <= ai < actions@.len() && attempt_doc_id(
                    #[trigger] actions@[ai],
                ) is Some ==> exists|k: int|
                    0 <= k < di && (#[trigger] docs@[k]).id == attempt_doc_id(
                        actions@[ai],
                    )->Some_0,
            *six as int <= *old(six) as int + di * nq_total,
            (*old(six) as int + entry.documents@.len() * nq_total <= send_outcomes@.len())
                ==> forall|ai: int|
                old(actions)@.len() <= ai < actions@.len() ==> attempt_from_outcomes(
                    #[trigger] actions@[ai],
                    send_outcomes@,
                ),
            forall|kg: int, series: Series|
                #![trigger entry.guilds@[kg].spec_settings_for_series(series)]
                0 <= kg < entry.guilds@.len() && entry.guilds@[kg].spec_settings_for_series(
                    series,
                ).1 is Some && store.guilds@[kg].spec_settings_for_series(series).1 is None
                    ==> cleared_action_for(actions@, entry.guilds@[kg].id, series),
        decreases nd - di,
    {
        let d = &docs[di];
        proof {
            broadcast use vstd::seq_lib::group_to_multiset_ensures;

            assert(docs@.contains(docs@[di as int]));
            assert(crate::store::spec_ready_docs(entry.documents@, ev.id).to_multiset().count(
                docs@[di as int],
            ) > 0);
            lemma_filter_subset(
                entry.documents@,
                |x: Document| x.event_id == ev.id && x.status == DocumentStatus::ReadyToPost,
                docs@[di as int],
            );
        }
        let ghost idx = choose|idx: int|
            0 <= idx < entry.documents@.len() && entry.documents@[idx] == docs@[di as int];
        proof {
            assert(doc_step(pre.documents@[idx], entry.documents@[idx]));
            assert(pre.documents@[idx].status == DocumentStatus::ReadyToPost);
            assert(pre.documents@[idx].id == d.id);
        }
        let ghost d_before = store.documents@;
        store.update_document_status(d.id, DocumentStatus::Posted);
        proof {
            assert forall|k: int| 0 <= k < d_before.len() implies doc_step(
                #[trigger] d_before[k],
                #[trigger] store.documents@[k],
            ) by {
                if d_before[k].id == d.id {
                    assert(doc_step(pre.documents@[k], entry.documents@[k]));
                    assert(doc_step(entry.documents@[k], d_before[k]));
                    assert(pre.documents@[k].id == d.id);
                    if k != idx {
                        assert(pre.documents@[k].id != pre.documents@[idx].id);
                        assert(false);
                    }
                    assert(d_before[k].status == DocumentStatus::ReadyToPost || d_before[k].status
                        == DocumentStatus::Posted);
                }
            }
            lemma_docs_evolve_trans(entry.documents@, d_before, store.documents@);
            lemma_actions_stable(
                actions@,
                pre,
                d_before,
                store.guilds@,
                store.documents@,
                store.guilds@,
                year,
            );
            assert(store.documents@[idx].status == DocumentStatus::Posted);
        }
        let ghost acts_posted = actions@;
        actions.push(PubAction::DocumentPosted { document_id: d.id });
        proof {
            assert(actions@.last() == (PubAction::DocumentPosted { document_id: d.id }));
            assert(posted_action_for(actions@, d.id));
            assert forall|k: int| 0 <= k < di implies posted_action_for(
                actions@,
                (#[trigger] docs@[k]).id,
            ) by {
                lemma_posted_action_extends(acts_posted, actions@, docs@[k].id);
            }
            assert forall|k: int, qj: int|
                0 <= k < di && 0 <= qj < queued@.len() implies attempt_action_for(
                actions@,
                (#[trigger] docs@[k]).id,
                (#[trigger] queued@[qj]).guild_id,
            ) by {
                lemma_attempt_action_extends(
                    acts_posted,
                    actions@,
                    docs@[k].id,
                    queued@[qj].guild_id,
                );
            }
            assert forall|k: int, i2: int|
                0 <= k < di && 0 <= i2 < store.documents@.len() && (
                #[trigger] store.documents@[i2]).id == (#[trigger] docs@[k]).id
                    implies store.documents@[i2].status == DocumentStatus::Posted by {
                assert(doc_step(d_before[i2], store.documents@[i2]));
            }
            assert forall|kg: int, series: Series|
                #![trigger entry.guilds@[kg].spec_settings_for_series(series)]
                0 <= kg < entry.guilds@.len() && entry.guilds@[kg].spec_settings_for_series(
                    series,
                ).1 is Some && store.guilds@[kg].spec_settings_for_series(series).1 is None
                    implies cleared_action_for(actions@, entry.guilds@[kg].id, series) by {
                lemma_cleared_action_extends(acts_posted, actions@, entry.guilds@[kg].id, series);
            }
            assert forall|i2: int|
                0 <= i2 < store.documents@.len() && (#[trigger] store.documents@[i2]).id == d.id
                    implies store.documents@[i2].status == DocumentStatus::Posted by {
                assert(doc_step(pre.documents@[i2], entry.documents@[i2]));
                assert(doc_step(entry.documents@[i2], d_before[i2]));
                assert(pre.documents@[i2].id == d.id);
                if i2 != idx {
                    assert(pre.documents@[i2].id != pre.documents@[idx].id);
                    assert(false);
                }
            }
            assert forall|i2: int|
                0 <= i2 < entry.documents@.len() && (#[trigger] entry.documents@[i2]).event_id
                    != ev.id implies store.documents@[i2] == entry.documents@[i2] by {
                if d_before[i2].id == d.id {
                    assert(doc_step(pre.documents@[i2], entry.documents@[i2]));
                    assert(pre.documents@[i2].id == d.id);
                    if i2 != idx {
                        assert(pre.documents@[i2].id != pre.documents@[idx].id);
                    }
                    assert(i2 == idx);
                    assert(entry.documents@[idx].event_id == ev.id);
                    assert(false);
                }
            }
        }
        let ghost acts_inner0 = actions@;
        let ghost inner0 = actions@.len() as int;
        let nq = queued.len();
        let mut qi: usize = 0;
        while qi < nq
            invariant
                qi <= nq,
                pre.wf(),
                entry.wf(),
                store.wf(),
                nq == queued@.len(),
                ev.series.spec_supported(),
                ev.status == EventStatus::Allowed,
                ev.year == year,
                exists|ke: int| 0 <= ke < pre.events@.len() && #[trigger] pre.events@[ke] == *ev,
                0 <= idx < pre.documents@.len(),
                pre.documents@[idx].id == d.id,
                pre.documents@[idx].event_id == ev.id,
                pre.documents@[idx].status == DocumentStatus::ReadyToPost,
                idx < store.documents@.len(),
                store.documents@[idx].status == DocumentStatus::Posted,
                d.id == docs@[di as int].id,
                d.event_id == ev.id,
                docs_evolve(pre.documents@, entry.documents@),
                guilds_evolve(pre.guilds@, entry.guilds@),
                store.events@ == entry.events@,
                store.images@ == entry.images@,
                store.threads@ == entry.threads@,
                store.allow_requests@ == entry.allow_requests@,
                store.next_id == entry.next_id,
                docs_evolve(entry.documents@, store.documents@),
                guilds_evolve(entry.guilds@, store.guilds@),
                actions_extend(old(actions)@, actions@),
                actions_ok(actions@, pre, store.documents@, store.guilds@, year),
                forall|j: int| 0 <= j < queued@.len() ==> queued_ok(#[trigger] queued@[j], pre, *ev),
                forall|q1: int, q2: int|
                    0 <= q1 < q2 < queued@.len() ==> (#[trigger] queued@[q1]).guild_id != (
                    #[trigger] queued@[q2]).guild_id,
                di < nd,
                forall|qj: int|
                    0 <= qj < qi ==> attempt_action_for(
                        actions@,
                        d.id,
                        (#[trigger] queued@[qj]).guild_id,
                    ),
                posted_action_for(actions@, d.id),
                forall|k: int, i2: int|
                    0 <= k <= di && 0 <= i2 < store.documents@.len() && (
                    #[trigger] store.documents@[i2]).id == (#[trigger] docs@[k]).id
                        ==> store.documents@[i2].status == DocumentStatus::Posted,
                forall|k: int| 0 <= k < di ==> posted_action_for(actions@, (#[trigger] docs@[k]).id),
                forall|k: int, qj: int|
                    0 <= k < di && 0 <= qj < queued@.len() ==> attempt_action_for(
                        actions@,
                        (#[trigger] docs@[k]).id,
                        (#[trigger] queued@[qj]).guild_id,
                    ),
                forall|i2: int|
                    0 <= i2 < entry.documents@.len() && (#[trigger] entry.documents@[i2]).event_id
                        != ev.id ==> store.documents@[i2] == entry.documents@[i2],
                !some_send_succeeded(send_outcomes@) ==> forall|ai: int|
                    old(actions)@.len() <= ai < actions@.len() ==> !((#[trigger] actions@[ai])
                        is Delivered),
                forall|ai: int|
                    old(actions)@.len() <= ai < actions@.len() ==> attempt_matches_outcomes(
                        #[trigger] actions@[ai],
                        send_outcomes@,
                    ),
                nd <= entry.documents@.len(),
                nd == docs@.len(),
                di < nd,
                nq_total == queued@.len(),
                nq == nq_total,
                inner0 == acts_inner0.len() as int,
                old(actions)@.len() <= inner0 <= actions@.len(),
                forall|j: int| 0 <= j < inner0 ==> actions@[j] == acts_inner0[j],
                forall|k1: int, k2: int|
                    0 <= k1 < k2 < docs@.len() ==> (#[trigger] docs@[k1]).id != (
                    #[trigger] docs@[k2]).id,
                forall|a1: int, a2: int|
                    old(actions)@.len() <= a1 < a2 < actions@.len() ==> !delivered_same_pair(
                        #[trigger] actions@[a1],
                        #[trigger] actions@[a2],
                    ),
                forall|ai: int|
                    old(actions)@.len() <= ai < inner0 && attempt_doc_id(
                        #[trigger] actions@[ai],
                    ) is Some ==> exists|k: int|
                        0 <= k < di && (#[trigger] docs@[k]).id == attempt_doc_id(
                            actions@[ai],
                        )->Some_0,
                forall|ai: int|
                    inner0 <= ai < actions@.len() && attempt_doc_id(
                        #[trigger] actions@[ai],
                    ) is Some ==> attempt_doc_id(actions@[ai])->Some_0 == d.id && (actions@[ai]
                        is Delivered ==> exists|qj: int|
                        0 <= qj < qi && (#[trigger] queued@[qj]).guild_id == attempt_guild_id(
                            actions@[ai],
                        )->Some_0),
                *six as int <= *old(six) as int + di * nq_total + qi,
                (*old(six) as int + entry.documents@.len() * nq_total <= send_outcomes@.len())
                    ==> forall|ai: int|
                    old(actions)@.len() <= ai < actions@.len() ==> attempt_from_outcomes(
                        #[trigger] actions@[ai],
                        send_outcomes@,
                    ),
                forall|kg: int, series: Series|
                    #![trigger entry.guilds@[kg].spec_settings_for_series(series)]
                    0 <= kg < entry.guilds@.len() && entry.guilds@[kg].spec_settings_for_series(
                        series,
                    ).1 is Some && store.guilds@[kg].spec_settings_for_series(series).1 is None
                        ==> cleared_action_for(actions@, entry.guilds@[kg].id, series),
            decreases nq - qi,
        {
            let ghost acts_head = actions@;
            let ghost g_inner_head = store.guilds@;
            let q = &queued[qi];
            if q.event_id == d.event_id {
                let ghost six_old = *six;
                let oc: SendOutcome = if *six < send_outcomes.len() {
                    let o = send_outcomes[*six];
                    *six = *six + 1;
                    o
                } else {
                    SendOutcome::SendFailed(ChatError::Other)
                };
                proof {
                    assert(oc == send_outcomes@[six_old as int] || oc == SendOutcome::SendFailed(
                        ChatError::Other,
                    ));
                    if *old(six) as int + entry.documents@.len() * nq_total
                        <= send_outcomes@.len() {
                        assert((di as int + 1) * nq_total == di as int * nq_total + nq_total)
                            by (nonlinear_arith);
                        assert((di as int + 1) * nq_total <= nd as int * nq_total)
                            by (nonlinear_arith)
                            requires
                                di as int + 1 <= nd as int,
                                nq_total >= 0,
                        ;
                        assert(nd as int * nq_total <= entry.documents@.len() * nq_total)
                            by (nonlinear_arith)
                            requires
                                nd as int <= entry.documents@.len(),
                                nq_total >= 0,
                        ;
                        assert((six_old as int) < send_outcomes@.len());
                        assert(oc == send_outcomes@[six_old as int]);
                    }
                }
                match oc {
                    SendOutcome::Sent => {
                        actions.push(
                            (PubAction::Delivered {
                                document_id: d.id,
                                guild_id: q.guild_id,
                                channel: q.channel_to_post.clone(),
                            }),
                        );
                        proof {
                            assert(queued_ok(queued@[qi as int], pre, *ev));
                            assert(action_ok(
                                actions@[actions@.len() - 1],
                                pre,
                                store.documents@,
                                store.guilds@,
                                year,
                            ));
                            assert(attempt_action_for(actions@, d.id, queued@[qi as int].guild_id));
                        }
                    },
                    SendOutcome::SendFailed(e) => {
                        if is_permission_error(e) {
                            let ghost g_before = store.guilds@;
                            store.clear_guild_settings(q.guild_id, ev.series);
                            proof {
                                assert forall|k: int| 0 <= k < g_before.len() implies guild_step(
                                    #[trigger] g_before[k],
                                    #[trigger] store.guilds@[k],
                                ) by {}
                                lemma_guilds_evolve_trans(entry.guilds@, g_before, store.guilds@);
                                lemma_actions_stable(
                                    actions@,
                                    pre,
                                    store.documents@,
                                    g_before,
                                    store.documents@,
                                    store.guilds@,
                                    year,
                                );
                            }
                            actions.push(
                                (PubAction::DeliveryFailed {
                                    document_id: d.id,
                                    guild_id: q.guild_id,
                                    series: ev.series,
                                    error: e,
                                }),
                            );
                            let ghost acts_failed = actions@;
                            proof {
                                assert(attempt_action_for(
                                    actions@,
                                    d.id,
                                    queued@[qi as int].guild_id,
                                ));
                            }
                            actions.push(
                                (PubAction::ChannelCleared {
                                    guild_id: q.guild_id,
                                    series: ev.series,
                                }),
                            );
                            proof {
                                lemma_attempt_action_extends(
                                    acts_failed,
                                    actions@,
                                    d.id,
                                    queued@[qi as int].guild_id,
                                );
                                assert(actions@.last() == (PubAction::ChannelCleared {
                                    guild_id: q.guild_id,
                                    series: ev.series,
                                }));
                                assert(cleared_action_for(actions@, q.guild_id, ev.series));
                                assert forall|kg: int, series: Series|
                                    #![trigger entry.guilds@[kg].spec_settings_for_series(series)]
                                    0 <= kg < entry.guilds@.len()
                                        && entry.guilds@[kg].spec_settings_for_series(
                                        series,
                                    ).1 is Some && store.guilds@[kg].spec_settings_for_series(
                                        series,
                                    ).1 is None implies cleared_action_for(
                                    actions@,
                                    entry.guilds@[kg].id,
                                    series,
                                ) by {
                                    if g_before[kg].spec_settings_for_series(series).1 is None {
                                        lemma_cleared_action_extends(
                                            acts_head,
                                            actions@,
                                            entry.guilds@[kg].id,
                                            series,
                                        );
                                    } else {
                                        assert(store.guilds@[kg] == spec_clear_channel(
                                            g_before[kg],
                                            ev.series,
                                        ) || store.guilds@[kg] == g_before[kg]);
                                        assert(g_before[kg].id == q.guild_id);
                                        assert(series == ev.series);
                                        assert(entry.guilds@[kg].id == q.guild_id);
                                    }
                                }
                            }
                        } else {
                            actions.push(
                                (PubAction::DeliveryFailed {
                                    document_id: d.id,
                                    guild_id: q.guild_id,
                                    series: ev.series,
                                    error: e,
                                }),
                            );
                            proof {
                                assert(attempt_action_for(
                                    actions@,
                                    d.id,
                                    queued@[qi as int].guild_id,
                                ));
                            }
                        }
                    },
                }
            } else {
                proof {
                    assert(queued_ok(queued@[qi as int], pre, *ev));
                    assert(queued@[qi as int].event_id == ev.id);
                    assert(false);
                }
            }
            proof {
                assert(actions_extend(acts_head, actions@));
                assert forall|a1: int, a2: int|
                    old(actions)@.len() <= a1 < a2 < actions@.len() implies !delivered_same_pair(
                    #[trigger] actions@[a1],
                    #[trigger] actions@[a2],
                ) by {
                    if delivered_same_pair(actions@[a1], actions@[a2]) {
                        if a2 < acts_head.len() {
                            assert(actions@[a1] == acts_head[a1]);
                            assert(actions@[a2] == acts_head[a2]);
                            assert(false);
                        } else {
                            assert(actions@[a2] is Delivered);
                            if a1 >= acts_head.len() {
                                assert(false);
                            } else if a1 < inner0 {
                                assert(actions@[a1] == acts_head[a1]);
                                assert(actions@[a1] is Delivered);
                                assert(attempt_doc_id(acts_head[a1]) is Some);
                                assert(attempt_doc_id(actions@[a2])->Some_0 == d.id);
                                assert(attempt_doc_id(acts_head[a1])->Some_0 == d.id);
                                let k = choose|k: int|
                                    0 <= k < di && (#[trigger] docs@[k]).id == attempt_doc_id(
                                        acts_head[a1],
                                    )->Some_0;
                                assert(docs@[k].id == d.id);
                                assert(d.id == docs@[di as int].id);
                                assert(docs@[k].id != docs@[di as int].id);
                                assert(false);
                            } else {
                                assert(actions@[a1] == acts_head[a1]);
                                assert(actions@[a1] is Delivered);
                                assert(attempt_guild_id(actions@[a2])->Some_0
                                    == queued@[qi as int].guild_id);
                                assert(attempt_guild_id(acts_head[a1])->Some_0
                                    == queued@[qi as int].guild_id);
                                let qj = choose|qj: int|
                                    0 <= qj < qi && (#[trigger] queued@[qj]).guild_id
                                        == attempt_guild_id(acts_head[a1])->Some_0;
                                assert(queued@[qj].guild_id != queued@[qi as int].guild_id);
                                assert(false);
                            }
                        }
                    }
                }
                assert forall|kg: int, series: Series|
                    #![trigger entry.guilds@[kg].spec_settings_for_series(series)]
                    0 <= kg < entry.guilds@.len() && entry.guilds@[kg].spec_settings_for_series(
                        series,
                    ).1 is Some && store.guilds@[kg].spec_settings_for_series(series).1 is None
                        implies cleared_action_for(actions@, entry.guilds@[kg].id, series) by {
                    if g_inner_head[kg].spec_settings_for_series(series).1 is None {
                        assert(cleared_action_for(acts_head, entry.guilds@[kg].id, series));
                        lemma_cleared_action_extends(
                            acts_head,
                            actions@,
                            entry.guilds@[kg].id,
                            series,
                        );
                    } else {
                        assert(store.guilds@[kg].spec_settings_for_series(series).1 is None);
                        assert(cleared_action_for(actions@, entry.guilds@[kg].id, series));
                    }
                }
                assert forall|qj: int| 0 <= qj < qi + 1 implies attempt_action_for(
                    actions@,
                    d.id,
                    (#[trigger] queued@[qj]).guild_id,
                ) by {
                    if qj < qi {
                        lemma_attempt_action_extends(
                            acts_head,
                            actions@,
                            d.id,
                            queued@[qj].guild_id,
                        );
                    }
                }
                lemma_posted_action_extends(acts_head, actions@, d.id);
                assert forall|k: int| 0 <= k < di implies posted_action_for(
                    actions@,
                    (#[trigger] docs@[k]).id,
                ) by {
                    lemma_posted_action_extends(acts_head, actions@, docs@[k].id);
                }
                assert forall|k: int, qj: int|
                    0 <= k < di && 0 <= qj < queued@.len() implies attempt_action_for(
                    actions@,
                    (#[trigger] docs@[k]).id,
                    (#[trigger] queued@[qj]).guild_id,
                ) by {
                    lemma_attempt_action_extends(
                        acts_head,
                        actions@,
                        docs@[k].id,
                        queued@[qj].guild_id,
                    );
                }
            }
            qi = qi + 1;
        }
        proof {
            assert((di as int + 1) * nq_total == di as int * nq_total + nq_total)
                by (nonlinear_arith);
            assert forall|ai: int|
                old(actions)@.len() <= ai < actions@.len() && attempt_doc_id(
                    #[trigger] actions@[ai],
                ) is Some implies exists|k: int|
                0 <= k < di + 1 && (#[trigger] docs@[k]).id == attempt_doc_id(
                    actions@[ai],
                )->Some_0 by {
                if ai >= inner0 {
                    assert(docs@[di as int].id == attempt_doc_id(actions@[ai])->Some_0);
                }
            }
            assert forall|k: int| 0 <= k < di + 1 implies posted_action_for(
                actions@,
                (#[trigger] docs@[k]).id,
            ) by {
                if k == di {
                    assert(docs@[di as int].id == d.id);
                }
            }
            assert forall|k: int, qj: int|
                0 <= k < di + 1 && 0 <= qj < queued@.len() implies attempt_action_for(
                actions@,
                (#[trigger] docs@[k]).id,
                (#[trigger] queued@[qj]).guild_id,
            ) by {
                if k == di {
                    assert(attempt_action_for(actions@, d.id, queued@[qj].guild_id));
                }
            }
        }
        di = di + 1;
    }
    proof {
        broadcast use vstd::seq_lib::group_to_multiset_ensures;
        broadcast use vstd::seq_lib::group_filter_ensures;

        assert(nd as int * nq_total <= entry.documents@.len() * nq_total) by (nonlinear_arith)
            requires
                nd as int <= entry.documents@.len(),
                nq_total >= 0,
        ;
        assert forall|i2: int|
            0 <= i2 < entry.documents@.len() && (#[trigger] entry.documents@[i2]).event_id == ev.id
                && entry.documents@[i2].status == DocumentStatus::ReadyToPost implies store.documents@[i2].status
            == DocumentStatus::Posted && posted_action_for(
            actions@,
            entry.documents@[i2].id,
        ) by {
            let v = entry.documents@[i2];
            assert(crate::store::spec_ready_docs(entry.documents@, ev.id).contains(v));
            assert(docs@.to_multiset().count(v) > 0);
            assert(docs@.contains(v));
            let k = choose|k: int| 0 <= k < docs@.len() && docs@[k] == v;
            assert(doc_step(entry.documents@[i2], store.documents@[i2]));
            assert(store.documents@[i2].id == docs@[k].id);
        }
        assert forall|ai: int|
            old(actions)@.len() <= ai < actions@.len() && attempt_doc_id(
                #[trigger] actions@[ai],
            ) is Some implies exists|i3: int|
            0 <= i3 < pre.documents@.len() && (#[trigger] pre.documents@[i3]).id
                == attempt_doc_id(actions@[ai])->Some_0 && pre.documents@[i3].event_id
                == ev.id by {
            let k = choose|k: int|
                0 <= k < nd && (#[trigger] docs@[k]).id == attempt_doc_id(actions@[ai])->Some_0;
            assert(docs@.contains(docs@[k]));
            assert(docs@.to_multiset().count(docs@[k]) > 0);
            assert(crate::store::spec_ready_docs(entry.documents@, ev.id).contains(docs@[k]));
            lemma_filter_subset(
                entry.documents@,
                |x: Document| x.event_id == ev.id && x.status == DocumentStatus::ReadyToPost,
                docs@[k],
            );
            let i3 = choose|i3: int|
                0 <= i3 < entry.documents@.len() && entry.documents@[i3] == docs@[k];
            assert(doc_step(pre.documents@[i3], entry.documents@[i3]));
            assert(pre.documents@[i3].id == docs@[k].id);
            assert(pre.documents@[i3].event_id == ev.id);
        }
        assert forall|i2: int, qj: int|
            0 <= i2 < entry.documents@.len() && (#[trigger] entry.documents@[i2]).event_id == ev.id
                && entry.documents@[i2].status == DocumentStatus::ReadyToPost && 0 <= qj
                < queued@.len() implies attempt_action_for(
            actions@,
            entry.documents@[i2].id,
            (#[trigger] queued@[qj]).guild_id,
        ) by {
            let v = entry.documents@[i2];
            assert(crate::store::spec_ready_docs(entry.documents@, ev.id).contains(v));
            assert(docs@.to_multiset().count(v) > 0);
            assert(docs@.contains(v));
            let k = choose|k: int| 0 <= k < docs@.len() && docs@[k] == v;
            assert(attempt_action_for(actions@, docs@[k].id, queued@[qj].guild_id));
        }
    }
}

/// One publisher tick. Takes the year and time, and the outcomes that
/// the chat platform returned for thread creations and message sends,
/// in the order they were attempted (missing entries count as plain
/// failures). Returns the trace of what the tick did.
///
/// The contract works in both directions. Everything that appears is
/// justified against the store as it stood before the tick; and the
/// tick owes its work: every `NotAllowed` event of the year without a
/// request gets exactly one open request with its posted action; every
/// `ReadyToPost` document of an `Allowed` event ends `Posted` with a
/// recorded action and a delivery attempt per still-configured guild —
/// plain-channel guilds outright, thread-grouped guilds whenever their
/// thread row already exists or enough created-thread outcomes are
/// supplied, which also leaves the thread row in place; every aged
/// allowed event ends `Posted`. Each recorded verdict matches the send
/// outcomes, a successful delivery is recorded at most once per
/// document and guild, and a channel moves to cleared only with a
/// `ChannelCleared` action for that guild and series in the trace.
#[verifier::rlimit(100)]
pub fn publisher_tick(
    store: &mut Store,
    year: i32,
    now: i64,
    thread_outcomes: &Vec<ThreadOutcome>,
    send_outcomes: &Vec<SendOutcome>,
) -> (actions: Vec<PubAction>)
    requires
        old(store).wf(),
        old(store).next_id as int + old(store).events@.len() * (old(store).guilds@.len() + 1)
            <= u64::MAX as int,
    ensures
        final(store).wf(),
        docs_evolve(old(store).documents@, final(store).documents@),
        events_evolve(old(store).events@, final(store).events@, now),
        guilds_evolve(old(store).guilds@, final(store).guilds@),
        final(store).images@ == old(store).images@,
        threads_extend(old(store).threads@, final(store).threads@),
        forall|i: int|
            old(store).threads@.len() <= i < final(store).threads@.len() ==> new_thread_ok(
                #[trigger] final(store).threads@[i],
                *old(store),
                year,
            ),
        requests_extend(old(store).allow_requests@, final(store).allow_requests@),
        forall|i: int|
            old(store).allow_requests@.len() <= i < final(store).allow_requests@.len()
                ==> new_request_ok(#[trigger] final(store).allow_requests@[i], *old(store), year),
        actions_ok(actions@, *old(store), final(store).documents@, final(store).guilds@, year),
        forall|ke: int|
            needs_request(*old(store), ke, year) ==> has_new_request_for(
                old(store).allow_requests@.len() as int,
                final(store).allow_requests@,
                old(store).events@[ke].id,
            ),
        forall|j: int|
            old(store).allow_requests@.len() <= j < final(store).allow_requests@.len()
                ==> approval_action_for(
                actions@,
                (#[trigger] final(store).allow_requests@[j]).id,
                final(store).allow_requests@[j].event_id,
            ),
        forall|j1: int, j2: int|
            old(store).allow_requests@.len() <= j1 < j2 < final(store).allow_requests@.len() ==> (
            #[trigger] final(store).allow_requests@[j1]).event_id
                != (#[trigger] final(store).allow_requests@[j2]).event_id,
        forall|i2: int, ke2: int|
            #![trigger doc_due(*old(store), i2, ke2, year)]
            doc_due(*old(store), i2, ke2, year) ==> final(store).documents@[i2].status
                == DocumentStatus::Posted && posted_action_for(
                actions@,
                old(store).documents@[i2].id,
            ),
        forall|i2: int, ke2: int, kg: int|
            #![trigger doc_due(*old(store), i2, ke2, year), old(store).guilds@[kg]]
            doc_due(*old(store), i2, ke2, year) && 0 <= kg < old(store).guilds@.len()
                && old(store).guilds@[kg].spec_settings_for_series(
                old(store).events@[ke2].series,
            ).1 is Some && !old(store).guilds@[kg].spec_settings_for_series(
                old(store).events@[ke2].series,
            ).2 && final(store).guilds@[kg].spec_settings_for_series(
                old(store).events@[ke2].series,
            ).1 is Some
                ==> attempt_action_for(
                actions@,
                old(store).documents@[i2].id,
                old(store).guilds@[kg].id,
            ),
        forall|i2: int, ke2: int, kg: int|
            #![trigger doc_due(*old(store), i2, ke2, year), old(store).guilds@[kg]]
            doc_due(*old(store), i2, ke2, year) && 0 <= kg < old(store).guilds@.len()
                && old(store).guilds@[kg].spec_settings_for_series(
                old(store).events@[ke2].series,
            ).1 is Some && old(store).guilds@[kg].spec_settings_for_series(
                old(store).events@[ke2].series,
            ).2 && thread_row_for(
                old(store).threads@,
                old(store).guilds@[kg].id,
                old(store).events@[ke2].id,
            ) && final(store).guilds@[kg].spec_settings_for_series(
                old(store).events@[ke2].series,
            ).1 is Some ==> attempt_action_for(
                actions@,
                old(store).documents@[i2].id,
                old(store).guilds@[kg].id,
            ),
        (all_threads_created(thread_outcomes@) && thread_outcomes@.len() >= old(
            store,
        ).events@.len() * old(store).guilds@.len()) ==> forall|i2: int, ke2: int, kg: int|
            #![trigger doc_due(*old(store), i2, ke2, year), old(store).guilds@[kg]]
            doc_due(*old(store), i2, ke2, year) && 0 <= kg < old(store).guilds@.len()
                && old(store).guilds@[kg].spec_settings_for_series(
                old(store).events@[ke2].series,
            ).1 is Some && old(store).guilds@[kg].spec_settings_for_series(
                old(store).events@[ke2].series,
            ).2 && final(store).guilds@[kg].spec_settings_for_series(
                old(store).events@[ke2].series,
            ).1 is Some ==> attempt_action_for(
                actions@,
                old(store).documents@[i2].id,
                old(store).guilds@[kg].id,
            ) && thread_row_for(
                final(store).threads@,
                old(store).guilds@[kg].id,
                old(store).events@[ke2].id,
            ),
        forall|ke2: int|
            0 <= ke2 < old(store).events@.len() && (#[trigger] old(store).events@[ke2]).status
                == EventStatus::Allowed && old(store).events@[ke2].year == year
                && old(store).events@[ke2].series.spec_supported()
                && spec_aged(old(store).events@[ke2], now)
                ==> final(store).events@[ke2].status == EventStatus::Posted,
        final(store).next_id as int <= old(store).next_id as int + old(store).events@.len() * (
        old(store).guilds@.len() + 1),
        !some_send_succeeded(send_outcomes@) ==> forall|ai: int|
            0 <= ai < actions@.len() ==> !((#[trigger] actions@[ai]) is Delivered),
        forall|kg: int, series: Series|
            #![trigger old(store).guilds@[kg].spec_settings_for_series(series)]
            0 <= kg < old(store).guilds@.len() && old(store).guilds@[kg].spec_settings_for_series(
                series,
            ).1 is Some && final(store).guilds@[kg].spec_settings_for_series(series).1 is None
                ==> cleared_action_for(actions@, old(store).guilds@[kg].id, series),
        forall|ai: int|
            0 <= ai < actions@.len() ==> attempt_matches_outcomes(
                #[trigger] actions@[ai],
                send_outcomes@,
            ),
        (send_outcomes@.len() >= old(store).events@.len() * (old(store).documents@.len() * old(
            store,
        ).guilds@.len())) ==> forall|ai: int|
            0 <= ai < actions@.len() ==> attempt_from_outcomes(
                #[trigger] actions@[ai],
                send_outcomes@,
            ),
        forall|a1: int, a2: int|
            0 <= a1 < a2 < actions@.len() ==> !delivered_same_pair(
                #[trigger] actions@[a1],
                #[trigger] actions@[a2],
            ),
{
    let ghost pre = *old(store);
    let ghost len_e = pre.events@.len() as int;
    let ghost len_g = pre.guilds@.len() as int;
    let ghost dg = pre.documents@.len() as int * len_g;
    let mut actions: Vec<PubAction> = Vec::new();
    proof {
        assert(dg >= 0) by (nonlinear_arith)
            requires
                dg == pre.documents@.len() as int * len_g,
                pre.documents@.len() >= 0,
                len_g >= 0,
        ;
        assert(len_e * (len_g + 1) == len_e * len_g + len_e) by (nonlinear_arith);
        assert(len_e * len_g >= 0) by (nonlinear_arith)
            requires
                len_e >= 0,
                len_g >= 0,
        ;
    }
    open_approval_requests(store, year, now, &mut actions);
    let allowed = store.fetch_events_by_status(EventStatus::Allowed, year);
    proof {
        broadcast use vstd::seq_lib::group_filter_ensures;

    }
    let mut tix: usize = 0;
    let mut six: usize = 0;
    let na = allowed.len();
    let mut i: usize = 0;
    while i < na
        invariant
            i <= na,
            pre.wf(),
            store.wf(),
            na == allowed@.len(),
            na <= len_e,
            len_e == pre.events@.len() as int,
            len_g == pre.guilds@.len() as int,
            allowed@ == crate::store::spec_events_by_status(pre.events@, EventStatus::Allowed, year),
            pre.next_id as int + len_e * len_g + len_e <= u64::MAX as int,
            docs_evolve(pre.documents@, store.documents@),
            events_evolve(pre.events@, store.events@, now),
            guilds_evolve(pre.guilds@, store.guilds@),
            store.images@ == pre.images@,
            threads_extend(pre.threads@, store.threads@),
            forall|j: int|
                pre.threads@.len() <= j < store.threads@.len() ==> new_thread_ok(
                    #[trigger] store.threads@[j],
                    pre,
                    year,
                ),
            requests_extend(pre.allow_requests@, store.allow_requests@),
            forall|j: int|
                pre.allow_requests@.len() <= j < store.allow_requests@.len() ==> new_request_ok(
                    #[trigger] store.allow_requests@[j],
                    pre,
                    year,
                ),
            store.next_id as int <= pre.next_id as int + len_e + i * len_g,
            actions_ok(actions@, pre, store.documents@, store.guilds@, year),
            forall|ke: int|
                needs_request(pre, ke, year) ==> has_new_request_for(
                    pre.allow_requests@.len() as int,
                    store.allow_requests@,
                    pre.events@[ke].id,
                ),
            forall|j: int|
                pre.allow_requests@.len() <= j < store.allow_requests@.len()
                    ==> approval_action_for(
                    actions@,
                    (#[trigger] store.allow_requests@[j]).id,
                    store.allow_requests@[j].event_id,
                ),
            forall|j1: int, j2: int|
                pre.allow_requests@.len() <= j1 < j2 < store.allow_requests@.len() ==> (
                #[trigger] store.allow_requests@[j1]).event_id
                    != (#[trigger] store.allow_requests@[j2]).event_id,
            forall|i2: int, ke2: int|
                #![trigger doc_due(pre, i2, ke2, year)]
                doc_due(pre, i2, ke2, year) && event_processed(
                    allowed@,
                    i as int,
                    pre.events@[ke2],
                ) ==> store.documents@[i2].status == DocumentStatus::Posted && posted_action_for(
                    actions@,
                    pre.documents@[i2].id,
                ),
            forall|i2: int, ke2: int|
                #![trigger doc_due(pre, i2, ke2, year)]
                doc_due(pre, i2, ke2, year) && !event_processed(
                    allowed@,
                    i as int,
                    pre.events@[ke2],
                ) ==> store.documents@[i2] == pre.documents@[i2],
            forall|i2: int, ke2: int, kg: int|
                #![trigger doc_due(pre, i2, ke2, year), pre.guilds@[kg]]
                doc_due(pre, i2, ke2, year) && event_processed(
                    allowed@,
                    i as int,
                    pre.events@[ke2],
                ) && 0 <= kg < pre.guilds@.len() && pre.guilds@[kg].spec_settings_for_series(
                    pre.events@[ke2].series,
                ).1 is Some && !pre.guilds@[kg].spec_settings_for_series(
                    pre.events@[ke2].series,
                ).2 && store.guilds@[kg].spec_settings_for_series(pre.events@[ke2].series).1 is Some
                    ==> attempt_action_for(
                    actions@,
                    pre.documents@[i2].id,
                    pre.guilds@[kg].id,
                ),
            tix as int <= i * len_g,
            forall|i2: int, ke2: int, kg: int|
                #![trigger doc_due(pre, i2, ke2, year), pre.guilds@[kg]]
                doc_due(pre, i2, ke2, year) && event_processed(
                    allowed@,
                    i as int,
                    pre.events@[ke2],
                ) && 0 <= kg < pre.guilds@.len() && pre.guilds@[kg].spec_settings_for_series(
                    pre.events@[ke2].series,
                ).1 is Some && pre.guilds@[kg].spec_settings_for_series(
                    pre.events@[ke2].series,
                ).2 && thread_row_for(
                    pre.threads@,
                    pre.guilds@[kg].id,
                    pre.events@[ke2].id,
                ) && store.guilds@[kg].spec_settings_for_series(pre.events@[ke2].series).1 is Some
                    ==> attempt_action_for(
                    actions@,
                    pre.documents@[i2].id,
                    pre.guilds@[kg].id,
                ),
            (all_threads_created(thread_outcomes@) && thread_outcomes@.len() >= pre.events@.len()
                * pre.guilds@.len()) ==> forall|i2: int, ke2: int, kg: int|
                #![trigger doc_due(pre, i2, ke2, year), pre.guilds@[kg]]
                doc_due(pre, i2, ke2, year) && event_processed(
                    allowed@,
                    i as int,
                    pre.events@[ke2],
                ) && 0 <= kg < pre.guilds@.len() && pre.guilds@[kg].spec_settings_for_series(
                    pre.events@[ke2].series,
                ).1 is Some && pre.guilds@[kg].spec_settings_for_series(
                    pre.events@[ke2].series,
                ).2 && store.guilds@[kg].spec_settings_for_series(pre.events@[ke2].series).1 is Some
                    ==> attempt_action_for(
                    actions@,
                    pre.documents@[i2].id,
                    pre.guilds@[kg].id,
                ) && thread_row_for(
                    store.threads@,
                    pre.guilds@[kg].id,
                    pre.events@[ke2].id,
                ),
            forall|ke2: int|
                0 <= ke2 < pre.events@.len() && (#[trigger] pre.events@[ke2]).status
                    == EventStatus::Allowed && pre.events@[ke2].year == year
                    && pre.events@[ke2].series.spec_supported() && spec_aged(pre.events@[ke2], now)
                    && event_processed(allowed@, i as int, pre.events@[ke2])
                    ==> store.events@[ke2].status == EventStatus::Posted,
            forall|ke2: int|
                0 <= ke2 < pre.events@.len() && !event_processed(
                    allowed@,
                    i as int,
                    (#[trigger] pre.events@[ke2]),
                ) ==> store.events@[ke2] == pre.events@[ke2],
            !some_send_succeeded(send_outcomes@) ==> forall|ai: int|
                0 <= ai < actions@.len() ==> !((#[trigger] actions@[ai]) is Delivered),
            forall|kg: int, series: Series|
                #![trigger pre.guilds@[kg].spec_settings_for_series(series)]
                0 <= kg < pre.guilds@.len() && pre.guilds@[kg].spec_settings_for_series(
                    series,
                ).1 is Some && store.guilds@[kg].spec_settings_for_series(series).1 is None
                    ==> cleared_action_for(actions@, pre.guilds@[kg].id, series),
            forall|ai: int|
                0 <= ai < actions@.len() ==> attempt_matches_outcomes(
                    #[trigger] actions@[ai],
                    send_outcomes@,
                ),
            dg == pre.documents@.len() as int * len_g,
            dg >= 0,
            six as int <= i * dg,
            (send_outcomes@.len() >= len_e * dg) ==> forall|ai: int|
                0 <= ai < actions@.len() ==> attempt_from_outcomes(
                    #[trigger] actions@[ai],
                    send_outcomes@,
                ),
            forall|a1: int, a2: int|
                0 <= a1 < a2 < actions@.len() ==> !delivered_same_pair(
                    #[trigger] actions@[a1],
                    #[trigger] actions@[a2],
                ),
            forall|ai: int|
                0 <= ai < actions@.len() && attempt_doc_id(#[trigger] actions@[ai]) is Some
                    ==> exists|i3: int, ke3: int|
                    #![trigger pre.documents@[i3], pre.events@[ke3]]
                    0 <= i3 < pre.documents@.len() && 0 <= ke3 < pre.events@.len()
                        && pre.documents@[i3].id == attempt_doc_id(actions@[ai])->Some_0
                        && pre.events@[ke3].id == pre.documents@[i3].event_id && event_processed(
                        allowed@,
                        i as int,
                        pre.events@[ke3],
                    ),
        decreases na - i,
    {
        let ghost it_docs = store.documents@;
        let ghost it_guilds = store.guilds@;
        let ghost it_events = store.events@;
        let ghost it_threads = store.threads@;
        let ghost it_actions = actions@;
        let ev = &allowed[i];
        proof {
            lemma_filter_subset(
                pre.events@,
                |e: Event| e.status == EventStatus::Allowed && e.year == year,
                allowed@[i as int],
            );
            assert(i as int * len_g >= 0) by (nonlinear_arith)
                requires
                    len_g >= 0,
                    i >= 0,
            ;
            assert((i as int + 1) * len_g <= len_e * len_g) by (nonlinear_arith)
                requires
                    len_g >= 0,
                    i as int + 1 <= len_e,
            ;
            assert((i as int + 1) * len_g == i as int * len_g + len_g) by (nonlinear_arith);
            assert(i as int * dg >= 0) by (nonlinear_arith)
                requires
                    dg >= 0,
                    i >= 0,
            ;
            assert((i as int + 1) * dg <= len_e * dg) by (nonlinear_arith)
                requires
                    dg >= 0,
                    i as int + 1 <= len_e,
            ;
            assert((i as int + 1) * dg == i as int * dg + dg) by (nonlinear_arith);
        }
        if ev.series.supported() {
            if event_aged(ev, now) {
                let ghost e_before = store.events@;
                store.mark_event_done(ev.id);
                proof {
                    let ke = choose|ke: int|
                        0 <= ke < pre.events@.len() && #[trigger] pre.events@[ke] == *ev;
                    assert forall|k: int| 0 <= k < e_before.len() implies event_step(
                        #[trigger] e_before[k],
                        #[trigger] store.events@[k],
                        now,
                    ) by {
                        assert(event_step(pre.events@[k], e_before[k], now));
                        if e_before[k].id == ev.id {
                            if k != ke {
                                assert(pre.events@[k].id != pre.events@[ke].id);
                                assert(false);
                            }
                            assert(spec_aged(e_before[k], now));
                        }
                    }
                    lemma_events_evolve_trans(pre.events@, e_before, store.events@, now);
                }
                actions.push(PubAction::EventAgedOut { event_id: ev.id });
            }
            proof {
                assert forall|ai: int|
                    it_actions.len() <= ai < actions@.len() implies !((#[trigger] actions@[ai])
                        is Delivered) && !(actions@[ai] is DeliveryFailed) by {}
            }
            let ghost acts_mat = actions@;
            let ghost tix_b = tix;
            let ghost mid = *store;
            let queued = materialize_guilds(
                store,
                Ghost(pre),
                ev,
                year,
                now,
                thread_outcomes,
                &mut tix,
                &mut actions,
            );
            proof {
                lemma_guilds_evolve_trans(pre.guilds@, mid.guilds@, store.guilds@);
            }
            let ghost acts_del = actions@;
            let ghost six_b = six;
            let ghost mid2 = *store;
            deliver_documents(
                store,
                Ghost(pre),
                ev,
                year,
                &queued,
                send_outcomes,
                &mut six,
                &mut actions,
            );
            proof {
                lemma_docs_evolve_trans(pre.documents@, mid2.documents@, store.documents@);
                lemma_guilds_evolve_trans(pre.guilds@, mid2.guilds@, store.guilds@);
                let kev = choose|kev: int|
                    0 <= kev < pre.events@.len() && #[trigger] pre.events@[kev] == *ev;
                assert(actions_extend(it_actions, actions@));
                if !some_send_succeeded(send_outcomes@) {
                    assert forall|ai: int| 0 <= ai < actions@.len() implies !((
                    #[trigger] actions@[ai]) is Delivered) by {
                        if ai < it_actions.len() {
                            assert(actions@[ai] == it_actions[ai]);
                        } else if ai < acts_mat.len() {
                            assert(actions@[ai] == acts_mat[ai]);
                            assert(acts_mat[ai] == actions@[ai]);
                            assert(!(acts_mat[ai] is Delivered));
                        } else if ai < acts_del.len() {
                            assert(actions@[ai] == acts_del[ai]);
                            assert(!(acts_del[ai] is Delivered));
                        }
                    }
                }
                assert(mid2.documents@.len() as int * queued@.len() as int <= dg)
                    by (nonlinear_arith)
                    requires
                        mid2.documents@.len() == pre.documents@.len(),
                        queued@.len() <= len_g,
                        dg == pre.documents@.len() as int * len_g,
                        pre.documents@.len() >= 0,
                        len_g >= 0,
                ;
                if send_outcomes@.len() >= len_e * dg {
                    assert((six_b as int) + mid2.documents@.len() * queued@.len()
                        <= send_outcomes@.len());
                    assert forall|ai: int|
                        0 <= ai < actions@.len() implies attempt_from_outcomes(
                        #[trigger] actions@[ai],
                        send_outcomes@,
                    ) by {
                        if ai < it_actions.len() {
                            assert(actions@[ai] == it_actions[ai]);
                        } else if ai < acts_mat.len() {
                            assert(actions@[ai] == acts_mat[ai]);
                            assert(!(acts_mat[ai] is DeliveryFailed));
                        } else if ai < acts_del.len() {
                            assert(actions@[ai] == acts_del[ai]);
                            assert(!(acts_del[ai] is DeliveryFailed));
                        }
                    }
                }
                assert forall|ai: int|
                    0 <= ai < actions@.len() && attempt_doc_id(#[trigger] actions@[ai])
                        is Some implies exists|i3: int, ke3: int|
                    #![trigger pre.documents@[i3], pre.events@[ke3]]
                    0 <= i3 < pre.documents@.len() && 0 <= ke3 < pre.events@.len()
                        && pre.documents@[i3].id == attempt_doc_id(actions@[ai])->Some_0
                        && pre.events@[ke3].id == pre.documents@[i3].event_id && event_processed(
                    allowed@,
                    i as int + 1,
                    pre.events@[ke3],
                ) by {
                    if ai < it_actions.len() {
                        assert(actions@[ai] == it_actions[ai]);
                        let (i3, ke3) = choose|i3: int, ke3: int|
                            #![trigger pre.documents@[i3], pre.events@[ke3]]
                            0 <= i3 < pre.documents@.len() && 0 <= ke3 < pre.events@.len()
                                && pre.documents@[i3].id == attempt_doc_id(
                                it_actions[ai],
                            )->Some_0 && pre.events@[ke3].id == pre.documents@[i3].event_id
                                && event_processed(allowed@, i as int, pre.events@[ke3]);
                        assert(event_processed(allowed@, i as int + 1, pre.events@[ke3]));
                    } else if ai < acts_mat.len() {
                        assert(actions@[ai] == acts_mat[ai]);
                        assert(false);
                    } else if ai < acts_del.len() {
                        assert(actions@[ai] == acts_del[ai]);
                        assert(false);
                    } else {
                        let i3 = choose|i3: int|
                            0 <= i3 < pre.documents@.len() && (#[trigger] pre.documents@[i3]).id
                                == attempt_doc_id(actions@[ai])->Some_0
                                && pre.documents@[i3].event_id == ev.id;
                        assert(pre.events@[kev].id == ev.id);
                        assert(event_processed(allowed@, i as int + 1, pre.events@[kev]));
                    }
                }
                assert forall|a1: int, a2: int|
                    0 <= a1 < a2 < actions@.len() implies !delivered_same_pair(
                    #[trigger] actions@[a1],
                    #[trigger] actions@[a2],
                ) by {
                    if delivered_same_pair(actions@[a1], actions@[a2]) {
                        if a2 < it_actions.len() {
                            assert(actions@[a1] == it_actions[a1]);
                            assert(actions@[a2] == it_actions[a2]);
                            assert(false);
                        } else if a2 < acts_mat.len() {
                            assert(actions@[a2] == acts_mat[a2]);
                            assert(false);
                        } else if a2 < acts_del.len() {
                            assert(actions@[a2] == acts_del[a2]);
                            assert(false);
                        } else {
                            if a1 >= acts_del.len() {
                                assert(false);
                            } else if a1 >= acts_mat.len() {
                                assert(actions@[a1] == acts_del[a1]);
                                assert(false);
                            } else if a1 >= it_actions.len() {
                                assert(actions@[a1] == acts_mat[a1]);
                                assert(false);
                            } else {
                                assert(actions@[a1] == it_actions[a1]);
                                assert(actions@[a1] is Delivered);
                                assert(attempt_doc_id(it_actions[a1]) is Some);
                                let (i3, ke3) = choose|i3: int, ke3: int|
                                    #![trigger pre.documents@[i3], pre.events@[ke3]]
                                    0 <= i3 < pre.documents@.len() && 0 <= ke3
                                        < pre.events@.len() && pre.documents@[i3].id
                                        == attempt_doc_id(it_actions[a1])->Some_0
                                        && pre.events@[ke3].id == pre.documents@[i3].event_id
                                        && event_processed(allowed@, i as int, pre.events@[ke3]);
                                let i4 = choose|i4: int|
                                    0 <= i4 < pre.documents@.len() && (
                                    #[trigger] pre.documents@[i4]).id == attempt_doc_id(
                                        actions@[a2],
                                    )->Some_0 && pre.documents@[i4].event_id == ev.id;
                                assert(attempt_doc_id(actions@[a2])->Some_0 == attempt_doc_id(
                                    it_actions[a1],
                                )->Some_0);
                                if i3 != i4 {
                                    assert(pre.documents@[i3].id != pre.documents@[i4].id);
                                }
                                assert(pre.events@[ke3].id == ev.id);
                                assert(pre.events@[kev].id == ev.id);
                                if ke3 != kev {
                                    assert(pre.events@[ke3].id != pre.events@[kev].id);
                                }
                                assert(pre.events@[ke3] == *ev);
                                let ii = choose|ii: int|
                                    0 <= ii < i && (#[trigger] allowed@[ii]) == pre.events@[ke3];
                                assert(allowed@[i as int] == *ev);
                                lemma_two_event_positions(allowed@, ii, i as int);
                                lemma_filter_event_count_le(
                                    pre.events@,
                                    |e: Event| e.status == EventStatus::Allowed && e.year == year,
                                    *ev,
                                );
                                lemma_unique_event_ids_count(pre.events@, *ev);
                                assert(false);
                            }
                        }
                    }
                }
                assert forall|ai: int| 0 <= ai < actions@.len() implies attempt_matches_outcomes(
                    #[trigger] actions@[ai],
                    send_outcomes@,
                ) by {
                    if ai < it_actions.len() {
                        assert(actions@[ai] == it_actions[ai]);
                    } else if ai < acts_mat.len() {
                        assert(actions@[ai] == acts_mat[ai]);
                        assert(!(acts_mat[ai] is Delivered) && !(acts_mat[ai] is DeliveryFailed));
                    } else if ai < acts_del.len() {
                        assert(actions@[ai] == acts_del[ai]);
                        assert(!(acts_del[ai] is Delivered) && !(acts_del[ai] is DeliveryFailed));
                    }
                }
                assert forall|kg: int, series: Series|
                    #![trigger pre.guilds@[kg].spec_settings_for_series(series)]
                    0 <= kg < pre.guilds@.len() && pre.guilds@[kg].spec_settings_for_series(
                        series,
                    ).1 is Some && store.guilds@[kg].spec_settings_for_series(series).1 is None
                        implies cleared_action_for(actions@, pre.guilds@[kg].id, series) by {
                    assert(guild_step(pre.guilds@[kg], mid.guilds@[kg]));
                    assert(guild_step(mid.guilds@[kg], mid2.guilds@[kg]));
                    assert(guild_step(mid2.guilds@[kg], store.guilds@[kg]));
                    if it_guilds[kg].spec_settings_for_series(series).1 is None {
                        lemma_cleared_action_extends(
                            it_actions,
                            actions@,
                            pre.guilds@[kg].id,
                            series,
                        );
                    } else {
                        assert(mid.guilds@[kg] == it_guilds[kg]);
                        if mid2.guilds@[kg].spec_settings_for_series(series).1 is None {
                            assert(cleared_action_for(acts_del, mid.guilds@[kg].id, series));
                            lemma_cleared_action_extends(
                                acts_del,
                                actions@,
                                pre.guilds@[kg].id,
                                series,
                            );
                        } else {
                            assert(cleared_action_for(actions@, mid2.guilds@[kg].id, series));
                        }
                    }
                }
                assert(mid2.documents@ == it_docs);
                assert forall|j: int|
                    pre.allow_requests@.len() <= j
                        < store.allow_requests@.len() implies approval_action_for(
                    actions@,
                    (#[trigger] store.allow_requests@[j]).id,
                    store.allow_requests@[j].event_id,
                ) by {
                    lemma_approval_action_extends(
                        it_actions,
                        actions@,
                        store.allow_requests@[j].id,
                        store.allow_requests@[j].event_id,
                    );
                }
                assert forall|i2: int, ke2: int|
                    #![trigger doc_due(pre, i2, ke2, year)]
                    doc_due(pre, i2, ke2, year) && event_processed(
                        allowed@,
                        i as int + 1,
                        pre.events@[ke2],
                    ) implies store.documents@[i2].status == DocumentStatus::Posted
                    && posted_action_for(actions@, pre.documents@[i2].id) by {
                    if event_processed(allowed@, i as int, pre.events@[ke2]) {
                        assert(it_docs[i2].status == DocumentStatus::Posted);
                        assert(doc_step(it_docs[i2], store.documents@[i2]));
                        lemma_posted_action_extends(it_actions, actions@, pre.documents@[i2].id);
                    } else {
                        let ii = choose|ii: int|
                            0 <= ii < i as int + 1 && (#[trigger] allowed@[ii])
                                == pre.events@[ke2];
                        assert(allowed@[i as int] == pre.events@[ke2]);
                        assert(it_docs[i2] == pre.documents@[i2]);
                        assert(mid2.documents@[i2].event_id == ev.id);
                        assert(mid2.documents@[i2].status == DocumentStatus::ReadyToPost);
                    }
                }
                assert forall|i2: int, ke2: int|
                    #![trigger doc_due(pre, i2, ke2, year)]
                    doc_due(pre, i2, ke2, year) && !event_processed(
                        allowed@,
                        i as int + 1,
                        pre.events@[ke2],
                    ) implies store.documents@[i2] == pre.documents@[i2] by {
                    assert(!event_processed(allowed@, i as int, pre.events@[ke2]));
                    assert(it_docs[i2] == pre.documents@[i2]);
                    if pre.events@[ke2].id == ev.id {
                        if ke2 != kev {
                            assert(pre.events@[ke2].id != pre.events@[kev].id);
                        }
                        assert(pre.events@[ke2] == *ev);
                        assert(event_processed(allowed@, i as int + 1, pre.events@[ke2]));
                        assert(false);
                    }
                    assert(mid2.documents@[i2].event_id != ev.id);
                }
                assert forall|i2: int, ke2: int, kg: int|
                    #![trigger doc_due(pre, i2, ke2, year), pre.guilds@[kg]]
                    doc_due(pre, i2, ke2, year) && event_processed(
                        allowed@,
                        i as int + 1,
                        pre.events@[ke2],
                    ) && 0 <= kg < pre.guilds@.len() && pre.guilds@[kg].spec_settings_for_series(
                        pre.events@[ke2].series,
                    ).1 is Some && !pre.guilds@[kg].spec_settings_for_series(
                        pre.events@[ke2].series,
                    ).2 && store.guilds@[kg].spec_settings_for_series(
                        pre.events@[ke2].series,
                    ).1 is Some implies attempt_action_for(
                    actions@,
                    pre.documents@[i2].id,
                    pre.guilds@[kg].id,
                ) by {
                    let series = pre.events@[ke2].series;
                    assert(guild_step(mid.guilds@[kg], mid2.guilds@[kg]));
                    assert(guild_step(mid2.guilds@[kg], store.guilds@[kg]));
                    assert(guild_step(pre.guilds@[kg], mid.guilds@[kg]));
                    if event_processed(allowed@, i as int, pre.events@[ke2]) {
                        assert(it_guilds[kg].spec_settings_for_series(series).1 is Some);
                        lemma_attempt_action_extends(
                            it_actions,
                            actions@,
                            pre.documents@[i2].id,
                            pre.guilds@[kg].id,
                        );
                    } else {
                        let ii = choose|ii: int|
                            0 <= ii < i as int + 1 && (#[trigger] allowed@[ii])
                                == pre.events@[ke2];
                        assert(allowed@[i as int] == pre.events@[ke2]);
                        assert(series == ev.series);
                        assert(mid.guilds@[kg].spec_settings_for_series(series).1 is Some);
                        assert(!mid.guilds@[kg].spec_settings_for_series(series).2);
                        assert(queued_has_guild(queued@, mid.guilds@[kg].id));
                        let qj = choose|qj: int|
                            0 <= qj < queued@.len() && (#[trigger] queued@[qj]).guild_id
                                == mid.guilds@[kg].id;
                        assert(it_docs[i2] == pre.documents@[i2]);
                        assert(mid2.documents@[i2].event_id == ev.id);
                        assert(mid2.documents@[i2].status == DocumentStatus::ReadyToPost);
                        assert(attempt_action_for(
                            actions@,
                            mid2.documents@[i2].id,
                            queued@[qj].guild_id,
                        ));
                    }
                }
                assert(threads_extend(it_threads, store.threads@));
                assert forall|i2: int, ke2: int, kg: int|
                    #![trigger doc_due(pre, i2, ke2, year), pre.guilds@[kg]]
                    doc_due(pre, i2, ke2, year) && event_processed(
                        allowed@,
                        i as int + 1,
                        pre.events@[ke2],
                    ) && 0 <= kg < pre.guilds@.len() && pre.guilds@[kg].spec_settings_for_series(
                        pre.events@[ke2].series,
                    ).1 is Some && pre.guilds@[kg].spec_settings_for_series(
                        pre.events@[ke2].series,
                    ).2 && thread_row_for(
                        pre.threads@,
                        pre.guilds@[kg].id,
                        pre.events@[ke2].id,
                    ) && store.guilds@[kg].spec_settings_for_series(
                        pre.events@[ke2].series,
                    ).1 is Some implies attempt_action_for(
                    actions@,
                    pre.documents@[i2].id,
                    pre.guilds@[kg].id,
                ) by {
                    let series = pre.events@[ke2].series;
                    assert(guild_step(mid.guilds@[kg], mid2.guilds@[kg]));
                    assert(guild_step(mid2.guilds@[kg], store.guilds@[kg]));
                    assert(guild_step(pre.guilds@[kg], mid.guilds@[kg]));
                    if event_processed(allowed@, i as int, pre.events@[ke2]) {
                        assert(it_guilds[kg].spec_settings_for_series(series).1 is Some);
                        lemma_attempt_action_extends(
                            it_actions,
                            actions@,
                            pre.documents@[i2].id,
                            pre.guilds@[kg].id,
                        );
                    } else {
                        let ii = choose|ii: int|
                            0 <= ii < i as int + 1 && (#[trigger] allowed@[ii])
                                == pre.events@[ke2];
                        assert(allowed@[i as int] == pre.events@[ke2]);
                        assert(series == ev.series);
                        assert(mid.guilds@[kg].spec_settings_for_series(series).1 is Some);
                        assert(mid.guilds@[kg].spec_settings_for_series(series).2);
                        lemma_thread_row_extends(
                            pre.threads@,
                            mid.threads@,
                            pre.guilds@[kg].id,
                            ev.id,
                        );
                        assert(queued_has_guild(queued@, mid.guilds@[kg].id));
                        let qj = choose|qj: int|
                            0 <= qj < queued@.len() && (#[trigger] queued@[qj]).guild_id
                                == mid.guilds@[kg].id;
                        assert(it_docs[i2] == pre.documents@[i2]);
                        assert(mid2.documents@[i2].event_id == ev.id);
                        assert(mid2.documents@[i2].status == DocumentStatus::ReadyToPost);
                        assert(attempt_action_for(
                            actions@,
                            mid2.documents@[i2].id,
                            queued@[qj].guild_id,
                        ));
                    }
                }
                if all_threads_created(thread_outcomes@) && thread_outcomes@.len()
                    >= pre.events@.len() * pre.guilds@.len() {
                    assert forall|i2: int, ke2: int, kg: int|
                        #![trigger doc_due(pre, i2, ke2, year), pre.guilds@[kg]]
                        doc_due(pre, i2, ke2, year) && event_processed(
                            allowed@,
                            i as int + 1,
                            pre.events@[ke2],
                        ) && 0 <= kg < pre.guilds@.len()
                            && pre.guilds@[kg].spec_settings_for_series(
                            pre.events@[ke2].series,
                        ).1 is Some && pre.guilds@[kg].spec_settings_for_series(
                            pre.events@[ke2].series,
                        ).2 && store.guilds@[kg].spec_settings_for_series(
                            pre.events@[ke2].series,
                        ).1 is Some implies attempt_action_for(
                        actions@,
                        pre.documents@[i2].id,
                        pre.guilds@[kg].id,
                    ) && thread_row_for(
                        store.threads@,
                        pre.guilds@[kg].id,
                        pre.events@[ke2].id,
                    ) by {
                        let series = pre.events@[ke2].series;
                        assert(guild_step(mid.guilds@[kg], mid2.guilds@[kg]));
                        assert(guild_step(mid2.guilds@[kg], store.guilds@[kg]));
                        assert(guild_step(pre.guilds@[kg], mid.guilds@[kg]));
                        if event_processed(allowed@, i as int, pre.events@[ke2]) {
                            assert(it_guilds[kg].spec_settings_for_series(series).1 is Some);
                            lemma_attempt_action_extends(
                                it_actions,
                                actions@,
                                pre.documents@[i2].id,
                                pre.guilds@[kg].id,
                            );
                            lemma_thread_row_extends(
                                it_threads,
                                store.threads@,
                                pre.guilds@[kg].id,
                                pre.events@[ke2].id,
                            );
                        } else {
                            let ii = choose|ii: int|
                                0 <= ii < i as int + 1 && (#[trigger] allowed@[ii])
                                    == pre.events@[ke2];
                            assert(allowed@[i as int] == pre.events@[ke2]);
                            assert(series == ev.series);
                            assert(mid.guilds@[kg].spec_settings_for_series(series).1 is Some);
                            assert(mid.guilds@[kg].spec_settings_for_series(series).2);
                            assert((tix_b as int) + mid.guilds@.len() <= thread_outcomes@.len());
                            assert(queued_has_guild(queued@, mid.guilds@[kg].id));
                            assert(thread_row_for(
                                mid2.threads@,
                                mid.guilds@[kg].id,
                                ev.id,
                            ));
                            let qj = choose|qj: int|
                                0 <= qj < queued@.len() && (#[trigger] queued@[qj]).guild_id
                                    == mid.guilds@[kg].id;
                            assert(it_docs[i2] == pre.documents@[i2]);
                            assert(mid2.documents@[i2].event_id == ev.id);
                            assert(mid2.documents@[i2].status == DocumentStatus::ReadyToPost);
                            assert(attempt_action_for(
                                actions@,
                                mid2.documents@[i2].id,
                                queued@[qj].guild_id,
                            ));
                            assert(store.threads@ == mid2.threads@);
                        }
                    }
                }
                assert forall|ke2: int|
                    0 <= ke2 < pre.events@.len() && (#[trigger] pre.events@[ke2]).status
                        == EventStatus::Allowed && pre.events@[ke2].year == year
                        && pre.events@[ke2].series.spec_supported() && spec_aged(
                        pre.events@[ke2],
                        now,
                    ) && event_processed(
                        allowed@,
                        i as int + 1,
                        pre.events@[ke2],
                    ) implies store.events@[ke2].status == EventStatus::Posted by {
                    if event_processed(allowed@, i as int, pre.events@[ke2]) {
                        assert(it_events[ke2].status == EventStatus::Posted);
                        assert(event_step(it_events[ke2], store.events@[ke2], now));
                    } else {
                        let ii = choose|ii: int|
                            0 <= ii < i as int + 1 && (#[trigger] allowed@[ii])
                                == pre.events@[ke2];
                        assert(allowed@[i as int] == pre.events@[ke2]);
                        assert(it_events[ke2] == pre.events@[ke2]);
                        assert(spec_aged(*ev, now));
                        assert(mid.events@[ke2].status == EventStatus::Posted);
                        assert(event_step(mid.events@[ke2], store.events@[ke2], now));
                    }
                }
                assert forall|ke2: int|
                    0 <= ke2 < pre.events@.len() && !event_processed(
                        allowed@,
                        i as int + 1,
                        (#[trigger] pre.events@[ke2]),
                    ) implies store.events@[ke2] == pre.events@[ke2] by {
                    assert(!event_processed(allowed@, i as int, pre.events@[ke2]));
                    assert(it_events[ke2] == pre.events@[ke2]);
                    if pre.events@[ke2].id == ev.id {
                        if ke2 != kev {
                            assert(pre.events@[ke2].id != pre.events@[kev].id);
                        }
                        assert(event_processed(allowed@, i as int + 1, pre.events@[ke2]));
                        assert(false);
                    }
                    assert(mid.events@[ke2] == it_events[ke2]);
                }
            }
        }
        i = i + 1;
    }
    proof {
        broadcast use vstd::seq_lib::group_filter_ensures;

        assert forall|i2: int, ke2: int|
            #![trigger doc_due(pre, i2, ke2, year)]
            doc_due(pre, i2, ke2, year) implies event_processed(
            allowed@,
            na as int,
            pre.events@[ke2],
        ) by {
            assert(allowed@.contains(pre.events@[ke2]));
            let ii = choose|ii: int|
                0 <= ii < allowed@.len() && #[trigger] allowed@[ii] == pre.events@[ke2];
        }
        assert forall|ke2: int|
            0 <= ke2 < pre.events@.len() && (#[trigger] pre.events@[ke2]).status
                == EventStatus::Allowed && pre.events@[ke2].year == year implies event_processed(
            allowed@,
            na as int,
            pre.events@[ke2],
        ) by {
            assert(allowed@.contains(pre.events@[ke2]));
            let ii = choose|ii: int|
                0 <= ii < allowed@.len() && #[trigger] allowed@[ii] == pre.events@[ke2];
        }
        assert((na as int) * len_g <= len_e * len_g) by (nonlinear_arith)
            requires
                na as int <= len_e,
                len_g >= 0,
        ;
    }
    actions
}

/// A document's lifecycle never moves backward during a publisher
/// tick, and each forward move is the single step from `ReadyToPost`
/// to `Posted`.
pub proof fn lemma_document_status_forward(pre: Seq<Document>, post: Seq<Document>, i: int)
    requires
        docs_evolve(pre, post),
        0 <= i < pre.len(),
    ensures
        crate::model::document_status_rank(pre[i].status) <= crate::model::document_status_rank(
            post[i].status,
        ),
        post[i].status != pre[i].status ==> pre[i].status == DocumentStatus::ReadyToPost
            && post[i].status == DocumentStatus::Posted,
{
    assert(doc_step(pre[i], post[i]));
}

/// No delivery attempt is ever issued for a document of a denied
/// event: every recorded attempt — successful or failed — belongs to an
/// event that stood `Allowed` before the tick, so an event whose status
/// is `Denied` cannot be the event of an attempted document.
pub proof fn lemma_denied_never_delivered(
    pre: Store,
    post_docs: Seq<Document>,
    post_guilds: Seq<Guild>,
    actions: Seq<PubAction>,
    year: i32,
    a_idx: int,
    ev_idx: int,
)
    requires
        pre.wf(),
        actions_ok(actions, pre, post_docs, post_guilds, year),
        0 <= a_idx < actions.len(),
        0 <= ev_idx < pre.events@.len(),
        pre.events@[ev_idx].status == EventStatus::Denied,
    ensures
        match actions[a_idx] {
            PubAction::Delivered { document_id, guild_id, channel } => forall|di: int|
                0 <= di < pre.documents@.len() && (#[trigger] pre.documents@[di]).id == document_id
                    ==> pre.documents@[di].event_id != pre.events@[ev_idx].id,
            PubAction::DeliveryFailed { document_id, guild_id, series, error } => forall|di: int|
                0 <= di < pre.documents@.len() && (#[trigger] pre.documents@[di]).id == document_id
                    ==> pre.documents@[di].event_id != pre.events@[ev_idx].id,
            _ => true,
        },
{
    assert(action_ok(actions[a_idx], pre, post_docs, post_guilds, year));
    match actions[a_idx] {
        PubAction::DeliveryFailed { document_id, guild_id, series, error } => {
            let (i, ke, kg) = choose|i: int, ke: int, kg: int|
                {
                    &&& 0 <= i < pre.documents@.len()
                    &&& 0 <= ke < pre.events@.len()
                    &&& 0 <= kg < pre.guilds@.len()
                    &&& i < post_docs.len()
                    &&& (#[trigger] pre.documents@[i]).id == document_id
                    &&& pre.documents@[i].status == DocumentStatus::ReadyToPost
                    &&& post_docs[i].status == DocumentStatus::Posted
                    &&& (#[trigger] pre.events@[ke]).id == pre.documents@[i].event_id
                    &&& pre.events@[ke].status == EventStatus::Allowed
                    &&& pre.events@[ke].year == year
                    &&& pre.events@[ke].series == series
                    &&& (#[trigger] pre.guilds@[kg]).id == guild_id
                    &&& pre.guilds@[kg].spec_settings_for_series(
                        pre.events@[ke].series,
                    ).1 is Some
                };
            assert forall|di: int|
                0 <= di < pre.documents@.len() && (#[trigger] pre.documents@[di]).id == document_id
                    implies pre.documents@[di].event_id != pre.events@[ev_idx].id by {
                if di != i {
                    assert(pre.documents@[di].id != pre.documents@[i].id);
                    assert(false);
                }
                if pre.documents@[i].event_id == pre.events@[ev_idx].id {
                    if ke != ev_idx {
                        assert(pre.events@[ke].id != pre.events@[ev_idx].id);
                    }
                    assert(false);
                }
            }
        },
        PubAction::Delivered { document_id, guild_id, channel } => {
            let (i, ke, kg) = choose|i: int, ke: int, kg: int|
                {
                    &&& 0 <= i < pre.documents@.len()
                    &&& 0 <= ke < pre.events@.len()
                    &&& 0 <= kg < pre.guilds@.len()
                    &&& i < post_docs.len()
                    &&& (#[trigger] pre.documents@[i]).id == document_id
                    &&& pre.documents@[i].status == DocumentStatus::ReadyToPost
                    &&& post_docs[i].status == DocumentStatus::Posted
                    &&& (#[trigger] pre.events@[ke]).id == pre.documents@[i].event_id
                    &&& pre.events@[ke].status == EventStatus::Allowed
                    &&& pre.events@[ke].year == year
                    &&& (#[trigger] pre.guilds@[kg]).id == guild_id
                    &&& pre.guilds@[kg].spec_settings_for_series(pre.events@[ke].series).1 is Some
                };
            assert forall|di: int|
                0 <= di < pre.documents@.len() && (#[trigger] pre.documents@[di]).id == document_id
                    implies pre.documents@[di].event_id != pre.events@[ev_idx].id by {
                if di != i {
                    assert(pre.documents@[di].id != pre.documents@[i].id);
                    assert(false);
                }
                if pre.documents@[i].event_id == pre.events@[ev_idx].id {
                    if ke != ev_idx {
                        assert(pre.events@[ke].id != pre.events@[ev_idx].id);
                    }
                    assert(false);
                }
            }
        },
        _ => {},
    }
}

/// A guild with no destination channel for any series gets nothing: a
/// tick never delivers to it and never creates a thread for it.
pub proof fn lemma_unconfigured_guild_untouched(
    pre: Store,
    post_docs: Seq<Document>,
    post_guilds: Seq<Guild>,
    post_threads: Seq<Thread>,
    actions: Seq<PubAction>,
    year: i32,
    g_idx: int,
)
    requires
        pre.wf(),
        actions_ok(actions, pre, post_docs, post_guilds, year),
        threads_extend(pre.threads@, post_threads),
        forall|j: int|
            pre.threads@.len() <= j < post_threads.len() ==> new_thread_ok(
                #[trigger] post_threads[j],
                pre,
                year,
            ),
        0 <= g_idx < pre.guilds@.len(),
        pre.guilds@[g_idx].f1_channel is None,
        pre.guilds@[g_idx].f2_channel is None,
        pre.guilds@[g_idx].f3_channel is None,
    ensures
        forall|a_idx: int|
            0 <= a_idx < actions.len() ==> match #[trigger] actions[a_idx] {
                PubAction::Delivered { document_id, guild_id, channel } => guild_id
                    != pre.guilds@[g_idx].id,
                PubAction::DeliveryFailed { document_id, guild_id, series, error } => guild_id
                    != pre.guilds@[g_idx].id,
                PubAction::ThreadCreated { guild_id, event_id, discord_id } => guild_id
                    != pre.guilds@[g_idx].id,
                _ => true,
            },
        forall|j: int|
            pre.threads@.len() <= j < post_threads.len() ==> (#[trigger] post_threads[j]).guild_id
                != pre.guilds@[g_idx].id,
{
    let gid = pre.guilds@[g_idx].id;
    assert forall|a_idx: int| 0 <= a_idx < actions.len() implies match #[trigger] actions[a_idx] {
        PubAction::Delivered { document_id, guild_id, channel } => guild_id != gid,
        PubAction::DeliveryFailed { document_id, guild_id, series, error } => guild_id != gid,
        PubAction::ThreadCreated { guild_id, event_id, discord_id } => guild_id != gid,
        _ => true,
    } by {
        assert(action_ok(actions[a_idx], pre, post_docs, post_guilds, year));
        match actions[a_idx] {
            PubAction::DeliveryFailed { document_id, guild_id, series, error } => {
                if guild_id == gid {
                    let (i, ke, kg) = choose|i: int, ke: int, kg: int|
                        {
                            &&& 0 <= i < pre.documents@.len()
                            &&& 0 <= ke < pre.events@.len()
                            &&& 0 <= kg < pre.guilds@.len()
                            &&& i < post_docs.len()
                            &&& (#[trigger] pre.documents@[i]).id == document_id
                            &&& pre.documents@[i].status == DocumentStatus::ReadyToPost
                            &&& post_docs[i].status == DocumentStatus::Posted
                            &&& (#[trigger] pre.events@[ke]).id == pre.documents@[i].event_id
                            &&& pre.events@[ke].status == EventStatus::Allowed
                            &&& pre.events@[ke].year == year
                            &&& pre.events@[ke].series == series
                            &&& (#[trigger] pre.guilds@[kg]).id == guild_id
                            &&& pre.guilds@[kg].spec_settings_for_series(
                                pre.events@[ke].series,
                            ).1 is Some
                        };
                    if kg != g_idx {
                        assert(pre.guilds@[kg].id != pre.guilds@[g_idx].id);
                    }
                    assert(pre.guilds@[g_idx].spec_settings_for_series(
                        pre.events@[ke].series,
                    ).1 is None);
                    assert(false);
                }
            },
            PubAction::Delivered { document_id, guild_id, channel } => {
                if guild_id == gid {
                    let (i, ke, kg) = choose|i: int, ke: int, kg: int|
                        {
                            &&& 0 <= i < pre.documents@.len()
                            &&& 0 <= ke < pre.events@.len()
                            &&& 0 <= kg < pre.guilds@.len()
                            &&& i < post_docs.len()
                            &&& (#[trigger] pre.documents@[i]).id == document_id
                            &&& pre.documents@[i].status == DocumentStatus::ReadyToPost
                            &&& post_docs[i].status == DocumentStatus::Posted
                            &&& (#[trigger] pre.events@[ke]).id == pre.documents@[i].event_id
                            &&& pre.events@[ke].status == EventStatus::Allowed
                            &&& pre.events@[ke].year == year
                            &&& (#[trigger] pre.guilds@[kg]).id == guild_id
                            &&& pre.guilds@[kg].spec_settings_for_series(
                                pre.events@[ke].series,
                            ).1 is Some
                        };
                    if kg != g_idx {
                        assert(pre.guilds@[kg].id != pre.guilds@[g_idx].id);
                    }
                    assert(pre.guilds@[g_idx].spec_settings_for_series(
                        pre.events@[ke].series,
                    ).1 is None);
                    assert(false);
                }
            },
            PubAction::ThreadCreated { guild_id, event_id, discord_id } => {
                if guild_id == gid {
                    let (ke, kg) = choose|ke: int, kg: int|
                        {
                            &&& 0 <= ke < pre.events@.len()
                            &&& 0 <= kg < pre.guilds@.len()
                            &&& (#[trigger] pre.events@[ke]).id == event_id
                            &&& pre.events@[ke].status == EventStatus::Allowed
                            &&& pre.events@[ke].year == year
                            &&& (#[trigger] pre.guilds@[kg]).id == guild_id
                            &&& pre.guilds@[kg].spec_settings_for_series(
                                pre.events@[ke].series,
                            ).1 is Some
                            &&& pre.guilds@[kg].spec_settings_for_series(pre.events@[ke].series).2
                        };
                    if kg != g_idx {
                        assert(pre.guilds@[kg].id != pre.guilds@[g_idx].id);
                    }
                    assert(pre.guilds@[g_idx].spec_settings_for_series(
                        pre.events@[ke].series,
                    ).1 is None);
                    assert(false);
                }
            },
            _ => {},
        }
    }
    assert forall|j: int|
        pre.threads@.len() <= j < post_threads.len() implies (#[trigger] post_threads[j]).guild_id
        != gid by {
        assert(new_thread_ok(post_threads[j], pre, year));
        if post_threads[j].guild_id == gid {
            let (ke, kg) = choose|ke: int, kg: int|
                {
                    &&& 0 <= ke < pre.events@.len()
                    &&& 0 <= kg < pre.guilds@.len()
                    &&& (#[trigger] pre.events@[ke]).id == post_threads[j].event_id
                    &&& pre.events@[ke].status == EventStatus::Allowed
                    &&& pre.events@[ke].year == year
                    &&& (#[trigger] pre.guilds@[kg]).id == post_threads[j].guild_id
                    &&& pre.guilds@[kg].spec_settings_for_series(pre.events@[ke].series).1 is Some
                    &&& pre.guilds@[kg].spec_settings_for_series(pre.events@[ke].series).2
                };
            if kg != g_idx {
                assert(pre.guilds@[kg].id != pre.guilds@[g_idx].id);
            }
            assert(pre.guilds@[g_idx].spec_settings_for_series(
                pre.events@[ke].series,
            ).1 is None);
            assert(false);
        }
    }
}

/// A document is delivered at most once per lifetime: a tick delivers
/// only documents that were `ReadyToPost` before it, and leaves them
/// `Posted`, so a document delivered in one tick cannot be delivered in
/// the next.
pub proof fn lemma_no_redelivery(
    pre: Store,
    mid: Store,
    post_docs: Seq<Document>,
    post_guilds: Seq<Guild>,
    a1: Seq<PubAction>,
    a2: Seq<PubAction>,
    year: i32,
    i1: int,
    i2: int,
)
    requires
        pre.wf(),
        docs_evolve(pre.documents@, mid.documents@),
        actions_ok(a1, pre, mid.documents@, mid.guilds@, year),
        actions_ok(a2, mid, post_docs, post_guilds, year),
        0 <= i1 < a1.len(),
        0 <= i2 < a2.len(),
    ensures
        match (a1[i1], a2[i2]) {
            (
                PubAction::Delivered { document_id: d1, guild_id: g1, channel: c1 },
                PubAction::Delivered { document_id: d2, guild_id: g2, channel: c2 },
            ) => d1 != d2,
            _ => true,
        },
{
    assert(action_ok(a1[i1], pre, mid.documents@, mid.guilds@, year));
    assert(action_ok(a2[i2], mid, post_docs, post_guilds, year));
    match (a1[i1], a2[i2]) {
        (
            PubAction::Delivered { document_id: d1, guild_id: g1, channel: c1 },
            PubAction::Delivered { document_id: d2, guild_id: g2, channel: c2 },
        ) => {
            if d1 == d2 {
                let (i, ke, kg) = choose|i: int, ke: int, kg: int|
                    {
                        &&& 0 <= i < pre.documents@.len()
                        &&& 0 <= ke < pre.events@.len()
                        &&& 0 <= kg < pre.guilds@.len()
                        &&& i < mid.documents@.len()
                        &&& (#[trigger] pre.documents@[i]).id == d1
                        &&& pre.documents@[i].status == DocumentStatus::ReadyToPost
                        &&& mid.documents@[i].status == DocumentStatus::Posted
                        &&& (#[trigger] pre.events@[ke]).id == pre.documents@[i].event_id
                        &&& pre.events@[ke].status == EventStatus::Allowed
                        &&& pre.events@[ke].year == year
                        &&& (#[trigger] pre.guilds@[kg]).id == g1
                        &&& pre.guilds@[kg].spec_settings_for_series(
                            pre.events@[ke].series,
                        ).1 is Some
                    };
                let (i2x, ke2, kg2) = choose|i2x: int, ke2: int, kg2: int|
                    {
                        &&& 0 <= i2x < mid.documents@.len()
                        &&& 0 <= ke2 < mid.events@.len()
                        &&& 0 <= kg2 < mid.guilds@.len()
                        &&& i2x < post_docs.len()
                        &&& (#[trigger] mid.documents@[i2x]).id == d2
                        &&& mid.documents@[i2x].status == DocumentStatus::ReadyToPost
                        &&& post_docs[i2x].status == DocumentStatus::Posted
                        &&& (#[trigger] mid.events@[ke2]).id == mid.documents@[i2x].event_id
                        &&& mid.events@[ke2].status == EventStatus::Allowed
                        &&& mid.events@[ke2].year == year
                        &&& (#[trigger] mid.guilds@[kg2]).id == g2
                        &&& mid.guilds@[kg2].spec_settings_for_series(
                            mid.events@[ke2].series,
                        ).1 is Some
                    };
                assert(doc_step(pre.documents@[i2x], mid.documents@[i2x]));
                assert(pre.documents@[i2x].id == d1);
                if i2x != i {
                    assert(pre.documents@[i2x].id != pre.documents@[i].id);
                }
                assert(false);
            }
        },
        _ => {},
    }
}

} // verus!
