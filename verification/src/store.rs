//! The relational store, modelled as in-memory tables.
//!
//! Rows are appended with identifiers drawn from one monotone counter, so
//! every row of every table has a distinct id. The loops read and write
//! the store only through the operations here, whose contracts say
//! exactly which rows are returned and how the tables change.

use vstd::prelude::*;

use crate::model::AllowRequest;
use crate::model::AllowRequestStatus;
use crate::model::Document;
use crate::model::DocumentStatus;
use crate::model::Event;
use crate::model::EventStatus;
use crate::model::Guild;
use crate::model::Image;
use crate::model::Series;
use crate::model::Thread;

verus! {

impl Clone for Event {
    fn clone(&self) -> (r: Self)
        ensures
            r == *self,
    {
        Event {
            id: self.id,
            title: self.title.clone(),
            year: self.year,
            series: self.series,
            status: self.status,
            created_at: self.created_at,
        }
    }
}

impl Clone for Document {
    fn clone(&self) -> (r: Self)
        ensures
            r == *self,
    {
        Document {
            id: self.id,
            event_id: self.event_id,
            title: self.title.clone(),
            href: self.href.clone(),
            mirror: self.mirror.clone(),
            status: self.status,
            created_at: self.created_at,
        }
    }
}

impl Clone for Image {
    fn clone(&self) -> (r: Self)
        ensures
            r == *self,
    {
        Image {
            id: self.id,
            document_id: self.document_id,
            page_number: self.page_number,
            url: self.url.clone(),
            created_at: self.created_at,
        }
    }
}

fn clone_opt_string(o: &Option<String>) -> (r: Option<String>)
    ensures
        r == *o,
{
    match o {
        Some(s) => Some(s.clone()),
        None => None,
    }
}

impl Clone for Guild {
    fn clone(&self) -> (r: Self)
        ensures
            r == *self,
    {
        Guild {
            id: self.id,
            discord_id: self.discord_id.clone(),
            name: self.name.clone(),
            f1_role: clone_opt_string(&self.f1_role),
            f1_channel: clone_opt_string(&self.f1_channel),
            f1_threads: self.f1_threads,
            f2_role: clone_opt_string(&self.f2_role),
            f2_channel: clone_opt_string(&self.f2_channel),
            f2_threads: self.f2_threads,
            f3_role: clone_opt_string(&self.f3_role),
            f3_channel: clone_opt_string(&self.f3_channel),
            f3_threads: self.f3_threads,
            joined_at: self.joined_at,
        }
    }
}

impl Clone for Thread {
    fn clone(&self) -> (r: Self)
        ensures
            r == *self,
    {
        Thread {
            id: self.id,
            discord_id: self.discord_id.clone(),
            channel_id: self.channel_id.clone(),
            event_id: self.event_id,
            guild_id: self.guild_id,
            created_at: self.created_at,
        }
    }
}

impl Clone for AllowRequest {
    fn clone(&self) -> (r: Self)
        ensures
            r == *self,
    {
        AllowRequest {
            id: self.id,
            event_id: self.event_id,
            response: self.response,
            created_at: self.created_at,
            approved_by: clone_opt_string(&self.approved_by),
            approved_at: self.approved_at,
        }
    }
}

/// All six tables plus the id counter.
pub struct Store {
    pub events: Vec<Event>,
    pub documents: Vec<Document>,
    pub images: Vec<Image>,
    pub guilds: Vec<Guild>,
    pub threads: Vec<Thread>,
    pub allow_requests: Vec<AllowRequest>,
    pub next_id: u64,
}

pub open spec fn event_ids_ok(s: Seq<Event>, bound: int) -> bool {
    &&& forall|i: int| 0 <= i < s.len() ==> #[trigger] s[i].id < bound
    &&& forall|i: int, j: int| 0 <= i < j < s.len() ==> #[trigger] s[i].id != #[trigger] s[j].id
}

pub open spec fn document_ids_ok(s: Seq<Document>, bound: int) -> bool {
    &&& forall|i: int| 0 <= i < s.len() ==> #[trigger] s[i].id < bound
    &&& forall|i: int, j: int| 0 <= i < j < s.len() ==> #[trigger] s[i].id != #[trigger] s[j].id
}

pub open spec fn image_ids_ok(s: Seq<Image>, bound: int) -> bool {
    &&& forall|i: int| 0 <= i < s.len() ==> #[trigger] s[i].id < bound
    &&& forall|i: int, j: int| 0 <= i < j < s.len() ==> #[trigger] s[i].id != #[trigger] s[j].id
}

pub open spec fn guild_ids_ok(s: Seq<Guild>, bound: int) -> bool {
    &&& forall|i: int| 0 <= i < s.len() ==> #[trigger] s[i].id < bound
    &&& forall|i: int, j: int| 0 <= i < j < s.len() ==> #[trigger] s[i].id != #[trigger] s[j].id
}

pub open spec fn thread_ids_ok(s: Seq<Thread>, bound: int) -> bool {
    &&& forall|i: int| 0 <= i < s.len() ==> #[trigger] s[i].id < bound
    &&& forall|i: int, j: int| 0 <= i < j < s.len() ==> #[trigger] s[i].id != #[trigger] s[j].id
}

pub open spec fn allow_request_ids_ok(s: Seq<AllowRequest>, bound: int) -> bool {
    &&& forall|i: int| 0 <= i < s.len() ==> #[trigger] s[i].id < bound
    &&& forall|i: int, j: int| 0 <= i < j < s.len() ==> #[trigger] s[i].id != #[trigger] s[j].id
}

/// The events of one year in a given lifecycle state, in table order.
pub open spec fn spec_events_by_status(s: Seq<Event>, status: EventStatus, year: i32) -> Seq<
    Event,
> {
    s.filter(|e: Event| e.status == status && e.year == year)
}

/// The table after setting the status of the event with the given id.
pub open spec fn spec_set_event_status(s: Seq<Event>, event_id: u64, status: EventStatus) -> Seq<
    Event,
> {
    s.map_values(
        |e: Event|
            if e.id == event_id {
                Event { status: status, ..e }
            } else {
                e
            },
    )
}

/// The table after setting the status of the document with the given id.
pub open spec fn spec_set_document_status(
    s: Seq<Document>,
    document_id: u64,
    status: DocumentStatus,
) -> Seq<Document> {
    s.map_values(
        |d: Document|
            if d.id == document_id {
                Document { status: status, ..d }
            } else {
                d
            },
    )
}

/// One guild with its destination channel for one series cleared.
pub open spec fn spec_clear_channel(g: Guild, series: Series) -> Guild {
    match series {
        Series::F1 => Guild { f1_channel: None, ..g },
        Series::F2 => Guild { f2_channel: None, ..g },
        Series::F3 => Guild { f3_channel: None, ..g },
        Series::F1Academy => g,
    }
}

/// The guild table after clearing one guild's channel for one series.
pub open spec fn spec_clear_guild_channel(s: Seq<Guild>, guild_id: u64, series: Series) -> Seq<
    Guild,
> {
    s.map_values(
        |g: Guild|
            if g.id == guild_id {
                spec_clear_channel(g, series)
            } else {
                g
            },
    )
}

/// The documents of one event that await fan-out.
pub open spec fn spec_ready_docs(s: Seq<Document>, event_id: u64) -> Seq<Document> {
    s.filter(|d: Document| d.event_id == event_id && d.status == DocumentStatus::ReadyToPost)
}

/// The images of one document.
pub open spec fn spec_images_of(s: Seq<Image>, document_id: u64) -> Seq<Image> {
    s.filter(|im: Image| im.document_id == document_id)
}

/// Newest first.
pub open spec fn docs_sorted_desc(s: Seq<Document>) -> bool {
    forall|i: int, j: int|
        0 <= i < j < s.len() ==> (#[trigger] s[i]).created_at >= (#[trigger] s[j]).created_at
}

/// Lowest page first.
pub open spec fn images_sorted_asc(s: Seq<Image>) -> bool {
    forall|i: int, j: int|
        0 <= i < j < s.len() ==> (#[trigger] s[i]).page_number <= (#[trigger] s[j]).page_number
}

/// A prefix of a sequence is, as a multiset, contained in the whole.
proof fn lemma_prefix_multiset_subset(s: Seq<Image>, m: int)
    requires
        0 <= m <= s.len(),
    ensures
        s.subrange(0, m).to_multiset().subset_of(s.to_multiset()),
{
    broadcast use vstd::multiset::group_multiset_axioms;

    assert(s =~= s.subrange(0, m) + s.subrange(m, s.len() as int));
    vstd::seq_lib::lemma_multiset_commutative(s.subrange(0, m), s.subrange(m, s.len() as int));
}

/// An element with more occurrences in the whole than in a prefix
/// occurs somewhere past the prefix.
proof fn lemma_extra_occurrence(s: Seq<Image>, m: int, x: Image)
    requires
        0 <= m <= s.len(),
        s.subrange(0, m).to_multiset().count(x) < s.to_multiset().count(x),
    ensures
        exists|idx: int| m <= idx < s.len() && s[idx] == x,
    decreases s.len() - m,
{
    broadcast use vstd::seq_lib::group_to_multiset_ensures;
    broadcast use vstd::multiset::group_multiset_axioms;

    assert(m < s.len()) by {
        if m == s.len() {
            assert(s.subrange(0, m) =~= s);
        }
    }
    if s[m] == x {
    } else {
        assert(s.subrange(0, m + 1) =~= s.subrange(0, m).push(s[m]));
        assert(s.subrange(0, m + 1).to_multiset() =~= s.subrange(0, m).to_multiset().insert(s[m]));
        assert(s.subrange(0, m + 1).to_multiset().count(x) == s.subrange(0, m).to_multiset().count(
            x,
        ));
        lemma_extra_occurrence(s, m + 1, x);
        let idx = choose|idx: int| m + 1 <= idx < s.len() && s[idx] == x;
        assert(m <= idx < s.len() && s[idx] == x);
    }
}

/// Inserts a document into a list kept newest-first.
fn insert_doc_sorted(v: &mut Vec<Document>, x: Document)
    requires
        docs_sorted_desc(old(v)@),
    ensures
        docs_sorted_desc(final(v)@),
        final(v)@.to_multiset() == old(v)@.to_multiset().insert(x),
        final(v)@.len() == old(v)@.len() + 1,
{
    let n = v.len();
    let mut p: usize = 0;
    while p < n && v[p].created_at >= x.created_at
        invariant
            p <= n,
            n == v@.len(),
            v@ == old(v)@,
            forall|j: int| 0 <= j < p ==> (#[trigger] v@[j]).created_at >= x.created_at,
        decreases n - p,
    {
        p = p + 1;
    }
    let ghost pre = v@;
    proof {
        assert(p == n || pre[p as int].created_at < x.created_at);
    }
    v.insert(p, x);
    proof {
        broadcast use vstd::seq_lib::group_to_multiset_ensures;

        vstd::seq_lib::to_multiset_insert(pre, p as int, x);
        assert forall|a: int, b: int| 0 <= a < b < v@.len() implies (#[trigger] v@[a]).created_at
            >= (#[trigger] v@[b]).created_at by {
            pre.insert_ensures(p as int, x);
            if b < p {
            } else if a == p as int {
                assert(pre[b - 1].created_at <= x.created_at);
            } else if b == p as int {
            } else if a < p {
                if b > p {
                    assert(v@[b] == pre[b - 1]);
                    if b - 1 > p {
                        assert(pre[b - 1].created_at <= x.created_at);
                    }
                }
            } else {
                assert(v@[a] == pre[a - 1] && v@[b] == pre[b - 1]);
            }
        }
    }
}

/// Inserts an image into a list kept lowest-page-first.
fn insert_image_sorted(v: &mut Vec<Image>, x: Image)
    requires
        images_sorted_asc(old(v)@),
    ensures
        images_sorted_asc(final(v)@),
        final(v)@.to_multiset() == old(v)@.to_multiset().insert(x),
        final(v)@.len() == old(v)@.len() + 1,
{
    let n = v.len();
    let mut p: usize = 0;
    while p < n && v[p].page_number <= x.page_number
        invariant
            p <= n,
            n == v@.len(),
            v@ == old(v)@,
            forall|j: int| 0 <= j < p ==> (#[trigger] v@[j]).page_number <= x.page_number,
        decreases n - p,
    {
        p = p + 1;
    }
    let ghost pre = v@;
    proof {
        assert(p == n || pre[p as int].page_number > x.page_number);
    }
    v.insert(p, x);
    proof {
        broadcast use vstd::seq_lib::group_to_multiset_ensures;

        vstd::seq_lib::to_multiset_insert(pre, p as int, x);
        assert forall|a: int, b: int| 0 <= a < b < v@.len() implies (#[trigger] v@[a]).page_number
            <= (#[trigger] v@[b]).page_number by {
            pre.insert_ensures(p as int, x);
            if b < p {
            } else if a == p as int {
                assert(pre[b - 1].page_number >= x.page_number);
            } else if b == p as int {
            } else if a < p {
                if b > p {
                    assert(v@[b] == pre[b - 1]);
                    if b - 1 > p {
                        assert(pre[b - 1].page_number >= x.page_number);
                    }
                }
            } else {
                assert(v@[a] == pre[a - 1] && v@[b] == pre[b - 1]);
            }
        }
    }
}

impl Store {
    /// Well-formedness: ids are below the counter and unique per table.
    pub open spec fn wf(self) -> bool {
        &&& event_ids_ok(self.events@, self.next_id as int)
        &&& document_ids_ok(self.documents@, self.next_id as int)
        &&& image_ids_ok(self.images@, self.next_id as int)
        &&& guild_ids_ok(self.guilds@, self.next_id as int)
        &&& thread_ids_ok(self.threads@, self.next_id as int)
        &&& allow_request_ids_ok(self.allow_requests@, self.next_id as int)
    }

    pub fn new() -> (s: Store)
        ensures
            s.wf(),
            s.events@ == Seq::<Event>::empty(),
            s.documents@ == Seq::<Document>::empty(),
            s.images@ == Seq::<Image>::empty(),
            s.guilds@ == Seq::<Guild>::empty(),
            s.threads@ == Seq::<Thread>::empty(),
            s.allow_requests@ == Seq::<AllowRequest>::empty(),
            s.next_id == 0,
    {
        Store {
            events: Vec::new(),
            documents: Vec::new(),
            images: Vec::new(),
            guilds: Vec::new(),
            threads: Vec::new(),
            allow_requests: Vec::new(),
            next_id: 0,
        }
    }

    /// Inserts a newly discovered event with status `NotAllowed`.
    pub fn insert_event(&mut self, title: String, year: i32, series: Series, now: i64) -> (id: u64)
        requires
            old(self).wf(),
            old(self).next_id < u64::MAX,
        ensures
            final(self).wf(),
            id == old(self).next_id,
            final(self).next_id == old(self).next_id + 1,
            final(self).events@ == old(self).events@.push(
                (Event {
                    id: id,
                    title: title,
                    year: year,
                    series: series,
                    status: EventStatus::NotAllowed,
                    created_at: now,
                }),
            ),
            final(self).documents@ == old(self).documents@,
            final(self).images@ == old(self).images@,
            final(self).guilds@ == old(self).guilds@,
            final(self).threads@ == old(self).threads@,
            final(self).allow_requests@ == old(self).allow_requests@,
    {
        let id = self.next_id;
        self.next_id = self.next_id + 1;
        self.events.push(
            Event {
                id,
                title,
                year,
                series,
                status: EventStatus::NotAllowed,
                created_at: now,
            },
        );
        id
    }

    /// Inserts a document row with status `Initial`.
    pub fn insert_document(
        &mut self,
        event_id: u64,
        title: String,
        href: String,
        mirror: String,
        now: i64,
    ) -> (id: u64)
        requires
            old(self).wf(),
            old(self).next_id < u64::MAX,
        ensures
            final(self).wf(),
            id == old(self).next_id,
            final(self).next_id == old(self).next_id + 1,
            final(self).documents@ == old(self).documents@.push(
                (Document {
                    id: id,
                    event_id: event_id,
                    title: title,
                    href: href,
                    mirror: mirror,
                    status: DocumentStatus::Initial,
                    created_at: now,
                }),
            ),
            final(self).events@ == old(self).events@,
            final(self).images@ == old(self).images@,
            final(self).guilds@ == old(self).guilds@,
            final(self).threads@ == old(self).threads@,
            final(self).allow_requests@ == old(self).allow_requests@,
    {
        let id = self.next_id;
        self.next_id = self.next_id + 1;
        self.documents.push(
            Document {
                id,
                event_id,
                title,
                href,
                mirror,
                status: DocumentStatus::Initial,
                created_at: now,
            },
        );
        id
    }

    /// Inserts one rendered page of a document.
    pub fn insert_image(&mut self, document_id: u64, page_number: u64, url: String, now: i64) -> (id:
        u64)
        requires
            old(self).wf(),
            old(self).next_id < u64::MAX,
        ensures
            final(self).wf(),
            id == old(self).next_id,
            final(self).next_id == old(self).next_id + 1,
            final(self).images@ == old(self).images@.push(
                (Image {
                    id: id,
                    document_id: document_id,
                    page_number: page_number,
                    url: url,
                    created_at: now,
                }),
            ),
            final(self).events@ == old(self).events@,
            final(self).documents@ == old(self).documents@,
            final(self).guilds@ == old(self).guilds@,
            final(self).threads@ == old(self).threads@,
            final(self).allow_requests@ == old(self).allow_requests@,
    {
        let id = self.next_id;
        self.next_id = self.next_id + 1;
        self.images.push(Image { id, document_id, page_number, url, created_at: now });
        id
    }

    /// Inserts a guild row, assigning it a fresh id.
    pub fn insert_guild(&mut self, guild: Guild) -> (id: u64)
        requires
            old(self).wf(),
            old(self).next_id < u64::MAX,
        ensures
            final(self).wf(),
            id == old(self).next_id,
            final(self).next_id == old(self).next_id + 1,
            final(self).guilds@ == old(self).guilds@.push((Guild { id: id, ..guild })),
            final(self).events@ == old(self).events@,
            final(self).documents@ == old(self).documents@,
            final(self).images@ == old(self).images@,
            final(self).threads@ == old(self).threads@,
            final(self).allow_requests@ == old(self).allow_requests@,
    {
        let id = self.next_id;
        self.next_id = self.next_id + 1;
        let mut g = guild;
        g.id = id;
        self.guilds.push(g);
        id
    }

    /// Inserts a thread row for one `(guild, event)` pair.
    pub fn insert_new_thread(
        &mut self,
        discord_id: String,
        channel_id: String,
        event_id: u64,
        guild_id: u64,
        now: i64,
    ) -> (id: u64)
        requires
            old(self).wf(),
            old(self).next_id < u64::MAX,
        ensures
            final(self).wf(),
            id == old(self).next_id,
            final(self).next_id == old(self).next_id + 1,
            final(self).threads@ == old(self).threads@.push(
                (Thread {
                    id: id,
                    discord_id: discord_id,
                    channel_id: channel_id,
                    event_id: event_id,
                    guild_id: guild_id,
                    created_at: now,
                }),
            ),
            final(self).events@ == old(self).events@,
            final(self).documents@ == old(self).documents@,
            final(self).images@ == old(self).images@,
            final(self).guilds@ == old(self).guilds@,
            final(self).allow_requests@ == old(self).allow_requests@,
    {
        let id = self.next_id;
        self.next_id = self.next_id + 1;
        self.threads.push(
            Thread { id, discord_id, channel_id, event_id, guild_id, created_at: now },
        );
        id
    }

    /// All event rows, as the scraper cache loads them.
    pub fn fetch_events(&self) -> (r: Vec<Event>)
        ensures
            r@ == self.events@,
    {
        let n = self.events.len();
        let mut r: Vec<Event> = Vec::new();
        let mut i: usize = 0;
        while i < n
            invariant
                i <= n,
                n == self.events@.len(),
                r@ == self.events@.take(i as int),
            decreases n - i,
        {
            r.push(self.events[i].clone());
            proof {
                assert(self.events@.take(i + 1) =~= self.events@.take(i as int).push(
                    self.events@[i as int],
                ));
            }
            i = i + 1;
        }
        proof {
            assert(self.events@.take(n as int) =~= self.events@);
        }
        r
    }

    /// All document rows, as the scraper cache loads them.
    pub fn fetch_documents(&self) -> (r: Vec<Document>)
        ensures
            r@ == self.documents@,
    {
        let n = self.documents.len();
        let mut r: Vec<Document> = Vec::new();
        let mut i: usize = 0;
        while i < n
            invariant
                i <= n,
                n == self.documents@.len(),
                r@ == self.documents@.take(i as int),
            decreases n - i,
        {
            r.push(self.documents[i].clone());
            proof {
                assert(self.documents@.take(i + 1) =~= self.documents@.take(i as int).push(
                    self.documents@[i as int],
                ));
            }
            i = i + 1;
        }
        proof {
            assert(self.documents@.take(n as int) =~= self.documents@);
        }
        r
    }

    /// All guild rows.
    pub fn fetch_guilds(&self) -> (r: Vec<Guild>)
        ensures
            r@ == self.guilds@,
    {
        let n = self.guilds.len();
        let mut r: Vec<Guild> = Vec::new();
        let mut i: usize = 0;
        while i < n
            invariant
                i <= n,
                n == self.guilds@.len(),
                r@ == self.guilds@.take(i as int),
            decreases n - i,
        {
            r.push(self.guilds[i].clone());
            proof {
                assert(self.guilds@.take(i + 1) =~= self.guilds@.take(i as int).push(
                    self.guilds@[i as int],
                ));
            }
            i = i + 1;
        }
        proof {
            assert(self.guilds@.take(n as int) =~= self.guilds@);
        }
        r
    }

    /// The events of one year in a given lifecycle state, in table order.
    pub fn fetch_events_by_status(&self, status: EventStatus, year: i32) -> (r: Vec<Event>)
        ensures
            r@ == spec_events_by_status(self.events@, status, year),
    {
        let n = self.events.len();
        let mut r: Vec<Event> = Vec::new();
        let mut i: usize = 0;
        proof {
            reveal(Seq::filter);
            assert(self.events@.take(0).filter(
                |e: Event| e.status == status && e.year == year,
            ) =~= Seq::<Event>::empty());
        }
        while i < n
            invariant
                i <= n,
                n == self.events@.len(),
                r@ == self.events@.take(i as int).filter(
                    |e: Event| e.status == status && e.year == year,
                ),
            decreases n - i,
        {
            proof {
                reveal(Seq::filter);
                assert(self.events@.take(i + 1).drop_last() =~= self.events@.take(i as int));
                assert(self.events@.take(i + 1).last() == self.events@[i as int]);
            }
            let e = &self.events[i];
            if e.status == status && e.year == year {
                r.push(e.clone());
            }
            i = i + 1;
        }
        proof {
            assert(self.events@.take(n as int) =~= self.events@);
        }
        r
    }

    /// The event with the given id, if any.
    pub fn get_event_by_id(&self, id: u64) -> (r: Option<Event>)
        ensures
            match r {
                Some(e) => exists|j: int|
                    0 <= j < self.events@.len() && self.events@[j] == e && e.id == id,
                None => forall|j: int|
                    0 <= j < self.events@.len() ==> (#[trigger] self.events@[j]).id != id,
            },
    {
        let n = self.events.len();
        let mut i: usize = 0;
        while i < n
            invariant
                i <= n,
                n == self.events@.len(),
                forall|j: int| 0 <= j < i ==> (#[trigger] self.events@[j]).id != id,
            decreases n - i,
        {
            if self.events[i].id == id {
                return Some(self.events[i].clone());
            }
            i = i + 1;
        }
        None
    }

    /// The most recently created event of one series, if any.
    pub fn fetch_latest_event_by_series(&self, series: Series) -> (r: Option<Event>)
        ensures
            match r {
                Some(e) => {
                    &&& exists|j: int| 0 <= j < self.events@.len() && self.events@[j] == e
                    &&& e.series == series
                    &&& forall|j: int|
                        0 <= j < self.events@.len() && (#[trigger] self.events@[j]).series
                            == series ==> self.events@[j].created_at <= e.created_at
                },
                None => forall|j: int|
                    0 <= j < self.events@.len() ==> (#[trigger] self.events@[j]).series != series,
            },
    {
        let n = self.events.len();
        let mut best: Option<Event> = None;
        let mut i: usize = 0;
        while i < n
            invariant
                i <= n,
                n == self.events@.len(),
                match best {
                    Some(e) => {
                        &&& exists|j: int| 0 <= j < self.events@.len() && self.events@[j] == e
                        &&& e.series == series
                        &&& forall|j: int|
                            0 <= j < i && (#[trigger] self.events@[j]).series == series
                                ==> self.events@[j].created_at <= e.created_at
                    },
                    None => forall|j: int|
                        0 <= j < i ==> (#[trigger] self.events@[j]).series != series,
                },
            decreases n - i,
        {
            let e = &self.events[i];
            if e.series == series {
                let replace = match &best {
                    Some(b) => b.created_at < e.created_at,
                    None => true,
                };
                if replace {
                    best = Some(e.clone());
                }
            }
            i = i + 1;
        }
        best
    }

    /// The guild with the given chat-platform id, if any.
    pub fn fetch_guild_by_discord_id(&self, discord_id: &str) -> (r: Option<Guild>)
        ensures
            match r {
                Some(g) => exists|j: int|
                    0 <= j < self.guilds@.len() && self.guilds@[j] == g && g.discord_id@
                        == discord_id@,
                None => forall|j: int|
                    0 <= j < self.guilds@.len() ==> (#[trigger] self.guilds@[j]).discord_id@
                        != discord_id@,
            },
    {
        let n = self.guilds.len();
        let mut i: usize = 0;
        while i < n
            invariant
                i <= n,
                n == self.guilds@.len(),
                forall|j: int|
                    0 <= j < i ==> (#[trigger] self.guilds@[j]).discord_id@ != discord_id@,
            decreases n - i,
        {
            if crate::text::str_eq(self.guilds[i].discord_id.as_str(), discord_id) {
                return Some(self.guilds[i].clone());
            }
            i = i + 1;
        }
        None
    }

    /// The thread row for one `(guild, event)` pair, if any.
    pub fn fetch_thread_for_guild_and_event(&self, guild_id: u64, event_id: u64) -> (r: Option<
        Thread,
    >)
        ensures
            match r {
                Some(t) => exists|j: int|
                    0 <= j < self.threads@.len() && self.threads@[j] == t && t.guild_id == guild_id
                        && t.event_id == event_id,
                None => forall|j: int|
                    0 <= j < self.threads@.len() ==> !((#[trigger] self.threads@[j]).guild_id
                        == guild_id && self.threads@[j].event_id == event_id),
            },
    {
        let n = self.threads.len();
        let mut i: usize = 0;
        while i < n
            invariant
                i <= n,
                n == self.threads@.len(),
                forall|j: int|
                    0 <= j < i ==> !((#[trigger] self.threads@[j]).guild_id == guild_id
                        && self.threads@[j].event_id == event_id),
            decreases n - i,
        {
            let t = &self.threads[i];
            if t.guild_id == guild_id && t.event_id == event_id {
                return Some(t.clone());
            }
            i = i + 1;
        }
        None
    }

    /// The approval request recorded for an event, if any.
    pub fn has_allow_request(&self, event_id: u64) -> (r: Option<AllowRequest>)
        ensures
            match r {
                Some(a) => exists|j: int|
                    0 <= j < self.allow_requests@.len() && self.allow_requests@[j] == a
                        && a.event_id == event_id,
                None => forall|j: int|
                    0 <= j < self.allow_requests@.len() ==> (#[trigger] self.allow_requests@[j])
                        .event_id != event_id,
            },
    {
        let n = self.allow_requests.len();
        let mut i: usize = 0;
        while i < n
            invariant
                i <= n,
                n == self.allow_requests@.len(),
                forall|j: int|
                    0 <= j < i ==> (#[trigger] self.allow_requests@[j]).event_id != event_id,
            decreases n - i,
        {
            if self.allow_requests[i].event_id == event_id {
                return Some(self.allow_requests[i].clone());
            }
            i = i + 1;
        }
        None
    }

    /// The approval request with the given id, if any.
    pub fn get_allow_request_by_id(&self, id: u64) -> (r: Option<AllowRequest>)
        ensures
            match r {
                Some(a) => exists|j: int|
                    0 <= j < self.allow_requests@.len() && self.allow_requests@[j] == a && a.id
                        == id,
                None => forall|j: int|
                    0 <= j < self.allow_requests@.len() ==> (#[trigger] self.allow_requests@[j]).id
                        != id,
            },
    {
        let n = self.allow_requests.len();
        let mut i: usize = 0;
        while i < n
            invariant
                i <= n,
                n == self.allow_requests@.len(),
                forall|j: int| 0 <= j < i ==> (#[trigger] self.allow_requests@[j]).id != id,
            decreases n - i,
        {
            if self.allow_requests[i].id == id {
                return Some(self.allow_requests[i].clone());
            }
            i = i + 1;
        }
        None
    }

    /// Sets the status of the event with the given id.
    pub fn update_event_status(&mut self, event_id: u64, status: EventStatus)
        requires
            old(self).wf(),
        ensures
            final(self).wf(),
            final(self).events@ == spec_set_event_status(old(self).events@, event_id, status),
            final(self).next_id == old(self).next_id,
            final(self).documents@ == old(self).documents@,
            final(self).images@ == old(self).images@,
            final(self).guilds@ == old(self).guilds@,
            final(self).threads@ == old(self).threads@,
            final(self).allow_requests@ == old(self).allow_requests@,
    {
        let n = self.events.len();
        let mut i: usize = 0;
        while i < n
            invariant
                i <= n,
                n == self.events@.len(),
                n == old(self).events@.len(),
                self.next_id == old(self).next_id,
                self.documents@ == old(self).documents@,
                self.images@ == old(self).images@,
                self.guilds@ == old(self).guilds@,
                self.threads@ == old(self).threads@,
                self.allow_requests@ == old(self).allow_requests@,
                forall|j: int|
                    i <= j < n ==> self.events@[j] == old(self).events@[j],
                forall|j: int|
                    0 <= j < i ==> self.events@[j] == spec_set_event_status(
                        old(self).events@,
                        event_id,
                        status,
                    )[j],
            decreases n - i,
        {
            let ghost pre = self.events@;
            if self.events[i].id == event_id {
                let mut e = self.events.remove(i);
                e.status = status;
                self.events.insert(i, e);
                proof {
                    assert(self.events@ =~= pre.update(
                        i as int,
                        (Event { status: status, ..pre[i as int] }),
                    ));
                }
            }
            i = i + 1;
        }
        proof {
            assert(self.events@ =~= spec_set_event_status(old(self).events@, event_id, status));
            assert forall|j: int| 0 <= j < n implies (#[trigger] self.events@[j]).id == old(
                self,
            ).events@[j].id by {}
        }
    }

    /// Marks a document `Posted`, as the publisher does before fan-out.
    pub fn mark_doc_done(&mut self, document_id: u64)
        requires
            old(self).wf(),
        ensures
            final(self).wf(),
            final(self).documents@ == spec_set_document_status(
                old(self).documents@,
                document_id,
                DocumentStatus::Posted,
            ),
            final(self).next_id == old(self).next_id,
            final(self).events@ == old(self).events@,
            final(self).images@ == old(self).images@,
            final(self).guilds@ == old(self).guilds@,
            final(self).threads@ == old(self).threads@,
            final(self).allow_requests@ == old(self).allow_requests@,
    {
        self.update_document_status(document_id, DocumentStatus::Posted);
    }

    /// Marks an event `Posted`, its terminal aged-out state.
    pub fn mark_event_done(&mut self, event_id: u64)
        requires
            old(self).wf(),
        ensures
            final(self).wf(),
            final(self).events@ == spec_set_event_status(
                old(self).events@,
                event_id,
                EventStatus::Posted,
            ),
            final(self).next_id == old(self).next_id,
            final(self).documents@ == old(self).documents@,
            final(self).images@ == old(self).images@,
            final(self).guilds@ == old(self).guilds@,
            final(self).threads@ == old(self).threads@,
            final(self).allow_requests@ == old(self).allow_requests@,
    {
        self.update_event_status(event_id, EventStatus::Posted);
    }

    /// Sets the status of the document with the given id.
    pub fn update_document_status(&mut self, document_id: u64, status: DocumentStatus)
        requires
            old(self).wf(),
        ensures
            final(self).wf(),
            final(self).documents@ == spec_set_document_status(
                old(self).documents@,
                document_id,
                status,
            ),
            final(self).next_id == old(self).next_id,
            final(self).events@ == old(self).events@,
            final(self).images@ == old(self).images@,
            final(self).guilds@ == old(self).guilds@,
            final(self).threads@ == old(self).threads@,
            final(self).allow_requests@ == old(self).allow_requests@,
    {
        let n = self.documents.len();
        let mut i: usize = 0;
        while i < n
            invariant
                i <= n,
                n == self.documents@.len(),
                n == old(self).documents@.len(),
                self.next_id == old(self).next_id,
                self.events@ == old(self).events@,
                self.images@ == old(self).images@,
                self.guilds@ == old(self).guilds@,
                self.threads@ == old(self).threads@,
                self.allow_requests@ == old(self).allow_requests@,
                forall|j: int|
                    i <= j < n ==> self.documents@[j] == old(self).documents@[j],
                forall|j: int|
                    0 <= j < i ==> self.documents@[j] == spec_set_document_status(
                        old(self).documents@,
                        document_id,
                        status,
                    )[j],
            decreases n - i,
        {
            let ghost pre = self.documents@;
            if self.documents[i].id == document_id {
                let mut d = self.documents.remove(i);
                d.status = status;
                self.documents.insert(i, d);
                proof {
                    assert(self.documents@ =~= pre.update(
                        i as int,
                        (Document { status: status, ..pre[i as int] }),
                    ));
                }
            }
            i = i + 1;
        }
        proof {
            assert(self.documents@ =~= spec_set_document_status(
                old(self).documents@,
                document_id,
                status,
            ));
            assert forall|j: int| 0 <= j < n implies (#[trigger] self.documents@[j]).id == old(
                self,
            ).documents@[j].id by {}
        }
    }

    /// Clears the destination channel of one guild for one series, as
    /// permission auto-remediation does.
    pub fn clear_guild_settings(&mut self, guild_id: u64, series: Series)
        requires
            old(self).wf(),
            series.spec_supported(),
        ensures
            final(self).wf(),
            final(self).guilds@ == spec_clear_guild_channel(old(self).guilds@, guild_id, series),
            final(self).next_id == old(self).next_id,
            final(self).events@ == old(self).events@,
            final(self).documents@ == old(self).documents@,
            final(self).images@ == old(self).images@,
            final(self).threads@ == old(self).threads@,
            final(self).allow_requests@ == old(self).allow_requests@,
    {
        let n = self.guilds.len();
        let mut i: usize = 0;
        while i < n
            invariant
                i <= n,
                n == self.guilds@.len(),
                n == old(self).guilds@.len(),
                series.spec_supported(),
                self.next_id == old(self).next_id,
                self.events@ == old(self).events@,
                self.documents@ == old(self).documents@,
                self.images@ == old(self).images@,
                self.threads@ == old(self).threads@,
                self.allow_requests@ == old(self).allow_requests@,
                forall|j: int|
                    i <= j < n ==> self.guilds@[j] == old(self).guilds@[j],
                forall|j: int|
                    0 <= j < i ==> self.guilds@[j] == spec_clear_guild_channel(
                        old(self).guilds@,
                        guild_id,
                        series,
                    )[j],
            decreases n - i,
        {
            let ghost pre = self.guilds@;
            if self.guilds[i].id == guild_id {
                let mut g = self.guilds.remove(i);
                match series {
                    Series::F1 => {
                        g.f1_channel = None;
                    },
                    Series::F2 => {
                        g.f2_channel = None;
                    },
                    Series::F3 => {
                        g.f3_channel = None;
                    },
                    Series::F1Academy => {},
                }
                self.guilds.insert(i, g);
                proof {
                    assert(self.guilds@ =~= pre.update(
                        i as int,
                        spec_clear_channel(pre[i as int], series),
                    ));
                }
            }
            i = i + 1;
        }
        proof {
            assert(self.guilds@ =~= spec_clear_guild_channel(old(self).guilds@, guild_id, series));
            assert forall|j: int| 0 <= j < n implies (#[trigger] self.guilds@[j]).id == old(
                self,
            ).guilds@[j].id by {}
        }
    }

    /// The `ReadyToPost` documents of one event, newest first.
    pub fn fetch_docs_for_event(&self, event_id: u64) -> (r: Vec<Document>)
        ensures
            r@.to_multiset() == spec_ready_docs(self.documents@, event_id).to_multiset(),
            docs_sorted_desc(r@),
    {
        let n = self.documents.len();
        let mut r: Vec<Document> = Vec::new();
        let mut i: usize = 0;
        proof {
            broadcast use vstd::seq_lib::group_to_multiset_ensures;

            reveal(Seq::filter);
            assert(self.documents@.take(0).filter(
                |d: Document| d.event_id == event_id && d.status == DocumentStatus::ReadyToPost,
            ) =~= Seq::<Document>::empty());
        }
        while i < n
            invariant
                i <= n,
                n == self.documents@.len(),
                docs_sorted_desc(r@),
                r@.to_multiset() == self.documents@.take(i as int).filter(
                    |d: Document| d.event_id == event_id && d.status == DocumentStatus::ReadyToPost,
                ).to_multiset(),
            decreases n - i,
        {
            proof {
                broadcast use vstd::seq_lib::group_to_multiset_ensures;

                reveal(Seq::filter);
                assert(self.documents@.take(i + 1).drop_last() =~= self.documents@.take(i as int));
                assert(self.documents@.take(i + 1).last() == self.documents@[i as int]);
            }
            let d = &self.documents[i];
            if d.event_id == event_id && matches!(d.status, DocumentStatus::ReadyToPost) {
                insert_doc_sorted(&mut r, d.clone());
            }
            i = i + 1;
        }
        proof {
            assert(self.documents@.take(n as int) =~= self.documents@);
        }
        r
    }

    /// The images of one document, ordered by page, capped at four.
    pub fn fetch_images_for_document(&self, document_id: u64) -> (r: Vec<Image>)
        ensures
            images_sorted_asc(r@),
            r@.len() == vstd::math::min(4, spec_images_of(self.images@, document_id).len() as int),
            forall|k: int|
                0 <= k < r@.len() ==> spec_images_of(self.images@, document_id).contains(
                    #[trigger] r@[k],
                ),
            r@.to_multiset().subset_of(spec_images_of(self.images@, document_id).to_multiset()),
            forall|x: Image, k: int|
                #![trigger r@.to_multiset().count(x), r@[k]]
                spec_images_of(self.images@, document_id).to_multiset().count(x)
                    > r@.to_multiset().count(x) && 0 <= k < r@.len() ==> r@[k].page_number
                    <= x.page_number,
    {
        let n = self.images.len();
        let mut r: Vec<Image> = Vec::new();
        let mut i: usize = 0;
        proof {
            broadcast use vstd::seq_lib::group_to_multiset_ensures;

            reveal(Seq::filter);
            assert(self.images@.take(0).filter(|im: Image| im.document_id == document_id) =~= Seq::<
                Image,
            >::empty());
        }
        while i < n
            invariant
                i <= n,
                n == self.images@.len(),
                images_sorted_asc(r@),
                r@.to_multiset() == self.images@.take(i as int).filter(
                    |im: Image| im.document_id == document_id,
                ).to_multiset(),
            decreases n - i,
        {
            proof {
                broadcast use vstd::seq_lib::group_to_multiset_ensures;

                reveal(Seq::filter);
                assert(self.images@.take(i + 1).drop_last() =~= self.images@.take(i as int));
                assert(self.images@.take(i + 1).last() == self.images@[i as int]);
            }
            let im = &self.images[i];
            if im.document_id == document_id {
                insert_image_sorted(&mut r, im.clone());
            }
            i = i + 1;
        }
        proof {
            broadcast use vstd::seq_lib::group_to_multiset_ensures;

            assert(self.images@.take(n as int) =~= self.images@);
            assert(r@.to_multiset().len() == r@.len());
            assert(spec_images_of(self.images@, document_id).to_multiset().len() == spec_images_of(
                self.images@,
                document_id,
            ).len());
            assert(r@.len() == spec_images_of(self.images@, document_id).len());
            assert forall|k: int|
                0 <= k < r@.len() implies spec_images_of(self.images@, document_id).contains(
                #[trigger] r@[k],
            ) by {
                assert(r@.contains(r@[k]));
                assert(r@.to_multiset().count(r@[k]) > 0);
            }
        }
        let ghost full = r@;
        r.truncate(4);
        proof {
            broadcast use vstd::multiset::group_multiset_axioms;

            if full.len() > 4 {
                assert(r@ =~= full.subrange(0, 4));
                lemma_prefix_multiset_subset(full, 4);
                assert forall|x: Image, k: int|
                    #![trigger r@.to_multiset().count(x), r@[k]]
                    spec_images_of(self.images@, document_id).to_multiset().count(x)
                        > r@.to_multiset().count(x) && 0 <= k < r@.len() implies r@[k].page_number
                    <= x.page_number by {
                    lemma_extra_occurrence(full, 4, x);
                    let idx = choose|idx: int| 4 <= idx < full.len() && full[idx] == x;
                    assert(full[k].page_number <= full[idx].page_number);
                }
            } else {
                assert(r@ =~= full);
                assert forall|x: Image, k: int|
                    #![trigger r@.to_multiset().count(x), r@[k]]
                    spec_images_of(self.images@, document_id).to_multiset().count(x)
                        > r@.to_multiset().count(x) && 0 <= k < r@.len() implies r@[k].page_number
                    <= x.page_number by {
                    assert(r@.to_multiset() == spec_images_of(
                        self.images@,
                        document_id,
                    ).to_multiset());
                }
            }
            assert forall|k: int|
                0 <= k < r@.len() implies spec_images_of(self.images@, document_id).contains(
                #[trigger] r@[k],
            ) by {
                assert(r@[k] == full[k]);
                assert(spec_images_of(self.images@, document_id).contains(full[k]));
            }
        }
        r
    }

    /// Opens an approval request for an event.
    pub fn create_allow_request(&mut self, event_id: u64, now: i64) -> (id: u64)
        requires
            old(self).wf(),
            old(self).next_id < u64::MAX,
        ensures
            final(self).wf(),
            id == old(self).next_id,
            final(self).next_id == old(self).next_id + 1,
            final(self).allow_requests@ == old(self).allow_requests@.push(
                (AllowRequest {
                    id: id,
                    event_id: event_id,
                    response: AllowRequestStatus::Open,
                    created_at: now,
                    approved_by: None,
                    approved_at: None,
                }),
            ),
            final(self).events@ == old(self).events@,
            final(self).documents@ == old(self).documents@,
            final(self).images@ == old(self).images@,
            final(self).guilds@ == old(self).guilds@,
            final(self).threads@ == old(self).threads@,
    {
        let id = self.next_id;
        self.next_id = self.next_id + 1;
        self.allow_requests.push(
            AllowRequest {
                id,
                event_id,
                response: AllowRequestStatus::Open,
                created_at: now,
                approved_by: None,
                approved_at: None,
            },
        );
        id
    }
}

} // verus!
