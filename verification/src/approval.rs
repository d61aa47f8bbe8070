//! The approval gate: operator approval requests, their interactive
//! message, and the atomic allow/deny decision.
//!
//! A request is rendered as a message with two buttons whose custom ids
//! are `allow-{id}` and `deny-{id}`. A button interaction is parsed back
//! into a verdict and a request id, and the decision updates the
//! request row and the referenced event row together.

use vstd::prelude::*;
use vstd::string::StrSliceExecFns;
use vstd::string::StringExecFns;

use crate::model::AllowRequest;
use crate::model::AllowRequestStatus;
use crate::model::Event;
use crate::model::EventStatus;
use crate::model::Series;
use crate::store::allow_request_ids_ok;
use crate::store::spec_set_event_status;
use crate::store::Store;
use crate::text::dec_of;
use crate::text::spec_digit_char;
use crate::text::spec_has_prefix;
use crate::text::str_has_prefix;
use crate::text::u64_to_dec;

verus! {

/// The fixed operator channel that approval messages are posted to.
pub const REQUEST_CHANNEL_ID: u64 = 1151509515066421302;

/// The numeric value of a digit run, most significant digit first.
pub open spec fn spec_dec_val(s: Seq<char>) -> int
    decreases s.len(),
{
    if s.len() == 0 {
        0
    } else {
        spec_dec_val(s.drop_last()) * 10 + spec_digit_val(s.last())
    }
}

pub open spec fn spec_digit_val(c: char) -> int {
    c as int - '0' as int
}

pub open spec fn is_digit_char(c: char) -> bool {
    '0' <= c <= '9'
}

pub open spec fn all_digits(s: Seq<char>) -> bool {
    forall|i: int| 0 <= i < s.len() ==> is_digit_char(#[trigger] s[i])
}

/// A digit run's value never shrinks as the run grows.
proof fn lemma_dec_val_monotone(s: Seq<char>, i: int, j: int)
    requires
        all_digits(s),
        0 <= i <= j <= s.len(),
    ensures
        0 <= spec_dec_val(s.subrange(0, i)) <= spec_dec_val(s.subrange(0, j)),
    decreases j - i,
{
    if i == j {
        lemma_dec_val_nonneg(s.subrange(0, i));
    } else {
        lemma_dec_val_monotone(s, i, j - 1);
        assert(s.subrange(0, j).drop_last() =~= s.subrange(0, j - 1));
        assert(spec_dec_val(s.subrange(0, j)) == spec_dec_val(s.subrange(0, j - 1)) * 10
            + spec_digit_val(s.subrange(0, j).last()));
    }
}

proof fn lemma_dec_val_nonneg(s: Seq<char>)
    requires
        all_digits(s),
    ensures
        spec_dec_val(s) >= 0,
    decreases s.len(),
{
    if s.len() > 0 {
        assert(all_digits(s.drop_last()));
        lemma_dec_val_nonneg(s.drop_last());
    }
}

/// Parses a run of decimal digits into a `u64`; `None` when the run is
/// empty, holds a non-digit, or overflows.
pub fn parse_u64_dec(s: &str) -> (r: Option<u64>)
    ensures
        match r {
            Some(v) => all_digits(s@) && s@.len() > 0 && spec_dec_val(s@) == v as int,
            None => !(all_digits(s@) && s@.len() > 0 && spec_dec_val(s@) <= u64::MAX),
        },
{
    let n = s.unicode_len();
    if n == 0 {
        return None;
    }
    let mut acc: u64 = 0;
    let mut i: usize = 0;
    proof {
        assert(s@.subrange(0, 0) =~= Seq::<char>::empty());
    }
    while i < n
        invariant
            i <= n,
            n == s@.len(),
            all_digits(s@.subrange(0, i as int)),
            acc as int == spec_dec_val(s@.subrange(0, i as int)),
        decreases n - i,
    {
        let c = s.get_char(i);
        if c < '0' || c > '9' {
            return None;
        }
        let d: u64 = (c as u32 as u64) - 48;
        proof {
            assert(s@.subrange(0, i + 1).drop_last() =~= s@.subrange(0, i as int));
            assert(s@.subrange(0, i + 1).last() == s@[i as int]);
            assert(all_digits(s@.subrange(0, i + 1)));
            assert(d as int == spec_digit_val(s@[i as int]));
        }
        if acc > (u64::MAX - d) / 10 {
            proof {
                let ghost full = s@;
                if all_digits(full) {
                    lemma_dec_val_monotone(full, i + 1, full.len() as int);
                    assert(full.subrange(0, full.len() as int) =~= full);
                    assert(spec_dec_val(full.subrange(0, i + 1)) == acc as int * 10 + d as int);
                    assert(acc as int * 10 + d as int > u64::MAX as int) by (nonlinear_arith)
                        requires
                            acc > (u64::MAX - d) / 10,
                            d <= 9,
                            acc <= u64::MAX,
                    ;
                }
            }
            return None;
        }
        acc = acc * 10 + d;
        i = i + 1;
    }
    proof {
        assert(s@.subrange(0, n as int) =~= s@);
    }
    Some(acc)
}

/// The custom id of the approve button.
pub fn allow_custom_id(request_id: u64) -> (r: String)
    ensures
        r@ == "allow-"@ + dec_of(request_id as int),
{
    let mut r = String::from_str("allow-");
    r.append(u64_to_dec(request_id).as_str());
    r
}

/// The custom id of the deny button.
pub fn deny_custom_id(request_id: u64) -> (r: String)
    ensures
        r@ == "deny-"@ + dec_of(request_id as int),
{
    let mut r = String::from_str("deny-");
    r.append(u64_to_dec(request_id).as_str());
    r
}

/// What a component custom id means: `allow-{digits}` approves the
/// request, `deny-{digits}` denies it; everything else is ignored.
pub open spec fn spec_parse_custom_id(s: Seq<char>) -> Option<(bool, int)> {
    if spec_has_prefix(s, "allow-"@) && custom_id_digits_ok(s, 6) {
        Some((true, spec_dec_val(s.subrange(6, s.len() as int))))
    } else if spec_has_prefix(s, "deny-"@) && custom_id_digits_ok(s, 5) {
        Some((false, spec_dec_val(s.subrange(5, s.len() as int))))
    } else {
        None
    }
}

pub open spec fn custom_id_digits_ok(s: Seq<char>, from: int) -> bool {
    &&& s.len() > from
    &&& all_digits(s.subrange(from, s.len() as int))
    &&& spec_dec_val(s.subrange(from, s.len() as int)) <= u64::MAX
}

/// Parses a button interaction's custom id into its verdict and the
/// request id it refers to.
pub fn parse_custom_id(s: &str) -> (r: Option<(bool, u64)>)
    ensures
        match r {
            Some((allow, id)) => spec_parse_custom_id(s@) == Some((allow, id as int)),
            None => spec_parse_custom_id(s@) is None,
        },
{
    proof {
        reveal_strlit("allow-");
        reveal_strlit("deny-");
    }
    if str_has_prefix(s, "allow-") {
        proof {
            if spec_has_prefix(s@, "deny-"@) {
                assert(s@.subrange(0, 5)[0] == s@[0]);
                assert(s@.subrange(0, 6)[0] == s@[0]);
            }
            assert(!spec_has_prefix(s@, "deny-"@));
        }
        let n = s.unicode_len();
        let rest = s.substring_char(6, n);
        match parse_u64_dec(rest) {
            Some(v) => {
                proof {
                    assert(custom_id_digits_ok(s@, 6));
                }
                Some((true, v))
            },
            None => {
                proof {
                    assert(!custom_id_digits_ok(s@, 6));
                }
                None
            },
        }
    } else if str_has_prefix(s, "deny-") {
        let n = s.unicode_len();
        let rest = s.substring_char(5, n);
        match parse_u64_dec(rest) {
            Some(v) => {
                proof {
                    assert(custom_id_digits_ok(s@, 5));
                }
                Some((false, v))
            },
            None => {
                proof {
                    assert(!custom_id_digits_ok(s@, 5));
                }
                None
            },
        }
    } else {
        None
    }
}

/// One interactive button of the approval message.
pub struct ApprovalButton {
    pub custom_id: String,
    pub label: String,
    pub danger: bool,
    pub disabled: bool,
}

/// The operator-facing approval message: a mention line, an embed, and
/// the two buttons.
pub struct ApprovalMessage {
    pub content: String,
    pub embed_title: String,
    pub embed_description: String,
    pub allow_button: ApprovalButton,
    pub deny_button: ApprovalButton,
}

/// The two buttons of a request: `allow-{id}` styled success with label
/// `Allow`, and `deny-{id}` styled danger with label `Deny`.
pub open spec fn spec_approval_buttons(
    a: ApprovalButton,
    d: ApprovalButton,
    request_id: int,
    disabled: bool,
) -> bool {
    &&& a.custom_id@ == "allow-"@ + dec_of(request_id)
    &&& a.label@ == "Allow"@
    &&& !a.danger
    &&& a.disabled == disabled
    &&& d.custom_id@ == "deny-"@ + dec_of(request_id)
    &&& d.label@ == "Deny"@
    &&& d.danger
    &&& d.disabled == disabled
}

/// The buttons of one request, enabled on the original message and
/// disabled once a decision was taken.
pub fn approval_buttons(request_id: u64, disabled: bool) -> (r: (ApprovalButton, ApprovalButton))
    ensures
        spec_approval_buttons(r.0, r.1, request_id as int, disabled),
{
    let allow = ApprovalButton {
        custom_id: allow_custom_id(request_id),
        label: String::from_str("Allow"),
        danger: false,
        disabled,
    };
    let deny = ApprovalButton {
        custom_id: deny_custom_id(request_id),
        label: String::from_str("Deny"),
        danger: true,
        disabled,
    };
    (allow, deny)
}

/// The message posted to the operator channel when a request is opened.
pub fn build_approval_message(request_id: u64, event: &Event) -> (r: ApprovalMessage)
    requires
        event.year >= 0,
    ensures
        r.content@ == "<@142951266811641856> & <@&738665034359767060>"@,
        r.embed_title@ == "New Event Found!"@,
        r.embed_description@ == "## "@ + dec_of(event.year as int) + " "@ + event.series.spec_str()
            + " "@ + event.title@ + "\n\nPlease allow or deny."@,
        spec_approval_buttons(r.allow_button, r.deny_button, request_id as int, false),
{
    let mut description = String::from_str("## ");
    description.append(u64_to_dec(event.year as u64).as_str());
    description.append(" ");
    description.append(event.series.as_str());
    description.append(" ");
    description.append(event.title.as_str());
    description.append("\n\nPlease allow or deny.");
    let (allow_button, deny_button) = approval_buttons(request_id, false);
    ApprovalMessage {
        content: String::from_str("<@142951266811641856> & <@&738665034359767060>"),
        embed_title: String::from_str("New Event Found!"),
        embed_description: description,
        allow_button,
        deny_button,
    }
}

/// The follow-up text attributing a decision to the operator who took it.
pub fn decision_followup(allow: bool, user_name: &str, global_name: Option<&String>) -> (r: String)
    ensures
        r@ == (if allow {
            "Allowed by "@
        } else {
            "Denied by "@
        }) + user_name@ + " ("@ + (match global_name {
            Some(g) => g@,
            None => "INVALID"@,
        }) + ")"@,
{
    let mut r = if allow {
        String::from_str("Allowed by ")
    } else {
        String::from_str("Denied by ")
    };
    r.append(user_name);
    r.append(" (");
    match global_name {
        Some(g) => r.append(g.as_str()),
        None => r.append("INVALID"),
    }
    r.append(")");
    r
}

/// The event status a verdict sets.
pub open spec fn spec_verdict_event_status(allow: bool) -> EventStatus {
    if allow {
        EventStatus::Allowed
    } else {
        EventStatus::Denied
    }
}

/// The request response a verdict sets.
pub open spec fn spec_verdict_response(allow: bool) -> AllowRequestStatus {
    if allow {
        AllowRequestStatus::Allowed
    } else {
        AllowRequestStatus::Denied
    }
}

pub open spec fn request_open_match(a: AllowRequest, request_id: u64) -> bool {
    a.id == request_id && a.response == AllowRequestStatus::Open
}

/// How one decision moves the store: the open request with the given id
/// takes the verdict, the operator and the time, and the referenced
/// event's status moves with it — both or neither.
pub open spec fn approval_transition(
    pre_reqs: Seq<AllowRequest>,
    pre_events: Seq<Event>,
    post_reqs: Seq<AllowRequest>,
    post_events: Seq<Event>,
    request_id: u64,
    allow: bool,
    user_id: String,
    now: i64,
    applied: bool,
) -> bool {
    &&& post_reqs.len() == pre_reqs.len()
    &&& forall|j: int|
        0 <= j < pre_reqs.len() && !request_open_match(#[trigger] pre_reqs[j], request_id)
            ==> post_reqs[j] == pre_reqs[j]
    &&& forall|j: int|
        0 <= j < pre_reqs.len() && request_open_match(#[trigger] pre_reqs[j], request_id)
            ==> post_reqs[j] == (AllowRequest {
            response: spec_verdict_response(allow),
            approved_by: Some(user_id),
            approved_at: Some(now),
            ..pre_reqs[j]
        })
    &&& forall|j: int|
        0 <= j < pre_reqs.len() && request_open_match(#[trigger] pre_reqs[j], request_id)
            ==> post_events == spec_set_event_status(
            pre_events,
            pre_reqs[j].event_id,
            spec_verdict_event_status(allow),
        )
    &&& applied == exists|j: int|
        0 <= j < pre_reqs.len() && request_open_match(#[trigger] pre_reqs[j], request_id)
    &&& !applied ==> post_events == pre_events
}

/// Applies an operator decision: moves the open request with the given
/// id to the verdict and the referenced event's status with it, as one
/// step. A request that is missing or already decided changes nothing,
/// so repeated clicks are no-ops. Returns whether a decision was
/// applied.
pub fn update_allow_request(
    store: &mut Store,
    request_id: u64,
    allow: bool,
    user_id: String,
    now: i64,
) -> (applied: bool)
    requires
        old(store).wf(),
    ensures
        final(store).wf(),
        approval_transition(
            old(store).allow_requests@,
            old(store).events@,
            final(store).allow_requests@,
            final(store).events@,
            request_id,
            allow,
            user_id,
            now,
            applied,
        ),
        final(store).next_id == old(store).next_id,
        final(store).documents@ == old(store).documents@,
        final(store).images@ == old(store).images@,
        final(store).guilds@ == old(store).guilds@,
        final(store).threads@ == old(store).threads@,
{
    let n = store.allow_requests.len();
    let mut i: usize = 0;
    while i < n
        invariant
            i <= n,
            old(store).wf(),
            store.wf(),
            n == store.allow_requests@.len(),
            store.allow_requests@ == old(store).allow_requests@,
            store.events@ == old(store).events@,
            store.documents@ == old(store).documents@,
            store.images@ == old(store).images@,
            store.guilds@ == old(store).guilds@,
            store.threads@ == old(store).threads@,
            store.next_id == old(store).next_id,
            forall|j: int|
                0 <= j < i ==> !request_open_match(#[trigger] store.allow_requests@[j], request_id),
        decreases n - i,
    {
        let matches_open = store.allow_requests[i].id == request_id && matches!(
            store.allow_requests[i].response,
            AllowRequestStatus::Open,
        );
        if matches_open {
            let ghost pre_reqs = store.allow_requests@;
            proof {
                assert forall|j: int| 0 <= j < pre_reqs.len() && j != i as int implies !(
                request_open_match(#[trigger] pre_reqs[j], request_id)) by {
                    if pre_reqs[j].id == request_id {
                        assert(pre_reqs[j].id == pre_reqs[i as int].id);
                        assert(false);
                    }
                }
            }
            let mut req = store.allow_requests.remove(i);
            let event_id = req.event_id;
            req.response = if allow {
                AllowRequestStatus::Allowed
            } else {
                AllowRequestStatus::Denied
            };
            req.approved_by = Some(user_id);
            req.approved_at = Some(now);
            store.allow_requests.insert(i, req);
            proof {
                assert(store.allow_requests@ =~= pre_reqs.update(
                    i as int,
                    (AllowRequest {
                        response: spec_verdict_response(allow),
                        approved_by: Some(user_id),
                        approved_at: Some(now),
                        ..pre_reqs[i as int]
                    }),
                ));
            }
            store.update_event_status(event_id, if allow {
                EventStatus::Allowed
            } else {
                EventStatus::Denied
            });
            return true;
        }
        i = i + 1;
    }
    false
}

/// The allow/deny pair moves atomically: when a decision was applied to
/// the open request at index `j`, that request carries the verdict and
/// every event row the request references carries the matching status,
/// while every other request row and event row is unchanged.
pub proof fn lemma_approval_atomic(
    pre_reqs: Seq<AllowRequest>,
    pre_events: Seq<Event>,
    post_reqs: Seq<AllowRequest>,
    post_events: Seq<Event>,
    request_id: u64,
    allow: bool,
    user_id: String,
    now: i64,
    j: int,
)
    requires
        approval_transition(
            pre_reqs,
            pre_events,
            post_reqs,
            post_events,
            request_id,
            allow,
            user_id,
            now,
            true,
        ),
        0 <= j < pre_reqs.len(),
        request_open_match(pre_reqs[j], request_id),
    ensures
        post_reqs[j].response == spec_verdict_response(allow),
        post_reqs[j].event_id == pre_reqs[j].event_id,
        post_events.len() == pre_events.len(),
        forall|k: int|
            0 <= k < pre_events.len() && (#[trigger] pre_events[k]).id == pre_reqs[j].event_id
                ==> post_events[k].status == spec_verdict_event_status(allow),
        forall|k: int|
            0 <= k < pre_events.len() && (#[trigger] pre_events[k]).id != pre_reqs[j].event_id
                ==> post_events[k] == pre_events[k],
{
    assert(post_events == spec_set_event_status(
        pre_events,
        pre_reqs[j].event_id,
        spec_verdict_event_status(allow),
    ));
}

} // verus!
