//! Row types shared by the scraper and publisher loops.
//!
//! Every persistent entity of the relational store is mirrored here as a
//! plain value: identifiers are 64-bit integers, chat-platform identifiers
//! are decimal strings, and timestamps are Unix seconds (UTC).

use vstd::prelude::*;

verus! {

/// The championships the scraper watches. `F1Academy` is reserved: the
/// loops reject it instead of silently defaulting.
#[derive(Clone, Copy, Debug, PartialEq, Eq, Structural)]
pub enum Series {
    F1,
    F2,
    F3,
    F1Academy,
}

impl Series {
    /// The variant name, as the store persists it.
    pub fn as_str(&self) -> (r: &'static str)
        ensures
            r@ == self.spec_str(),
    {
        proof {
            reveal_strlit("F1");
            reveal_strlit("F2");
            reveal_strlit("F3");
            reveal_strlit("F1Academy");
        }
        match self {
            Series::F1 => "F1",
            Series::F2 => "F2",
            Series::F3 => "F3",
            Series::F1Academy => "F1Academy",
        }
    }

    pub open spec fn spec_str(self) -> Seq<char> {
        match self {
            Series::F1 => "F1"@,
            Series::F2 => "F2"@,
            Series::F3 => "F3"@,
            Series::F1Academy => "F1Academy"@,
        }
    }

    /// Whether the core supports this series.
    pub open spec fn spec_supported(self) -> bool {
        self != Series::F1Academy
    }

    pub fn supported(&self) -> (r: bool)
        ensures
            r == self.spec_supported(),
    {
        !matches!(self, Series::F1Academy)
    }

    /// Accepts a supported series and rejects the reserved variant with
    /// a clearly named error message.
    pub fn ensure_supported(&self) -> (r: Result<Series, &'static str>)
        ensures
            r is Ok <==> self.spec_supported(),
            r is Ok ==> r->Ok_0 == *self,
            r is Err ==> r->Err_0@ == "series not supported: F1Academy"@,
    {
        match self {
            Series::F1Academy => Err("series not supported: F1Academy"),
            _ => Ok(*self),
        }
    }
}

/// Lifecycle of an event: `NotAllowed` until an operator decides, then
/// `Allowed` or `Denied`; `Posted` is the terminal aged-out state.
#[derive(Clone, Copy, Debug, PartialEq, Eq, Structural)]
pub enum EventStatus {
    NotAllowed,
    Allowed,
    Denied,
    Posted,
}

/// Lifecycle of a document: inserted as `Initial`, `ReadyToPost` once all
/// page images are mirrored, `Posted` after fan-out started.
#[derive(Clone, Copy, Debug, PartialEq, Eq, Structural)]
pub enum DocumentStatus {
    Initial,
    ReadyToPost,
    Posted,
}

/// Operator response recorded on an approval request.
#[derive(Clone, Copy, Debug, PartialEq, Eq, Structural)]
pub enum AllowRequestStatus {
    Open,
    Allowed,
    Denied,
}

/// Position of a document status on its one-way lifecycle.
pub open spec fn document_status_rank(s: DocumentStatus) -> int {
    match s {
        DocumentStatus::Initial => 0,
        DocumentStatus::ReadyToPost => 1,
        DocumentStatus::Posted => 2,
    }
}

/// A race meeting discovered on the index page of one series.
#[derive(Debug, PartialEq)]
pub struct Event {
    pub id: u64,
    pub title: String,
    pub year: i32,
    pub series: Series,
    pub status: EventStatus,
    pub created_at: i64,
}

/// A PDF published for an event. `href` is the upstream URL and unique;
/// `mirror` is the object-store copy.
#[derive(Debug, PartialEq)]
pub struct Document {
    pub id: u64,
    pub event_id: u64,
    pub title: String,
    pub href: String,
    pub mirror: String,
    pub status: DocumentStatus,
    pub created_at: i64,
}

/// One rendered page of a document.
#[derive(Debug, PartialEq)]
pub struct Image {
    pub id: u64,
    pub document_id: u64,
    pub page_number: u64,
    pub url: String,
    pub created_at: i64,
}

/// A chat-platform tenant with per-series destination settings.
#[derive(Debug, PartialEq)]
pub struct Guild {
    pub id: u64,
    pub discord_id: String,
    pub name: String,
    pub f1_role: Option<String>,
    pub f1_channel: Option<String>,
    pub f1_threads: bool,
    pub f2_role: Option<String>,
    pub f2_channel: Option<String>,
    pub f2_threads: bool,
    pub f3_role: Option<String>,
    pub f3_channel: Option<String>,
    pub f3_threads: bool,
    pub joined_at: i64,
}

impl Guild {
    pub open spec fn spec_settings_for_series(self, series: Series) -> (
        Option<String>,
        Option<String>,
        bool,
    ) {
        match series {
            Series::F1 => (self.f1_role, self.f1_channel, self.f1_threads),
            Series::F2 => (self.f2_role, self.f2_channel, self.f2_threads),
            Series::F3 => (self.f3_role, self.f3_channel, self.f3_threads),
            Series::F1Academy => (None, None, false),
        }
    }

    /// The `(role, channel, use_threads)` triple configured for a series.
    pub fn settings_for_series(&self, series: Series) -> (r: (
        Option<String>,
        Option<String>,
        bool,
    ))
        requires
            series.spec_supported(),
        ensures
            r == self.spec_settings_for_series(series),
    {
        match series {
            Series::F1 => self.f1_settings(),
            Series::F2 => self.f2_settings(),
            Series::F3 => self.f3_settings(),
            Series::F1Academy => (None, None, false),
        }
    }

    pub fn f1_settings(&self) -> (r: (Option<String>, Option<String>, bool))
        ensures
            r == (self.f1_role, self.f1_channel, self.f1_threads),
    {
        (self.f1_role.clone(), self.f1_channel.clone(), self.f1_threads)
    }

    pub fn f2_settings(&self) -> (r: (Option<String>, Option<String>, bool))
        ensures
            r == (self.f2_role, self.f2_channel, self.f2_threads),
    {
        (self.f2_role.clone(), self.f2_channel.clone(), self.f2_threads)
    }

    pub fn f3_settings(&self) -> (r: (Option<String>, Option<String>, bool))
        ensures
            r == (self.f3_role, self.f3_channel, self.f3_threads),
    {
        (self.f3_role.clone(), self.f3_channel.clone(), self.f3_threads)
    }
}

/// A chat-platform thread grouping one event's messages for one guild.
#[derive(Debug, PartialEq)]
pub struct Thread {
    pub id: u64,
    pub discord_id: String,
    pub channel_id: String,
    pub event_id: u64,
    pub guild_id: u64,
    pub created_at: i64,
}

/// The operator approval artifact for one event.
#[derive(Debug, PartialEq)]
pub struct AllowRequest {
    pub id: u64,
    pub event_id: u64,
    pub response: AllowRequestStatus,
    pub created_at: i64,
    pub approved_by: Option<String>,
    pub approved_at: Option<i64>,
}

} // verus!
