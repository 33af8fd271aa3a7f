pub mod addresses;
pub mod email;
pub mod form;
pub mod notification;
pub mod payload;
pub mod router;
pub mod score;
pub mod text;

use vstd::prelude::*;

verus! {

use crate::addresses::extract_spec;
use crate::email::{
    attachment_result, Email, email_matches, parse_outcome_matches, ParseError, ParseOutcome,
    required_missing, subject_suppressed,
};
use crate::form::{FormEntry, FormMap};
use crate::notification::{
    ATTACHMENT_CAP, attachment_flags, build_embed, Embed, embed_matches, included_spec,
};
use crate::payload::{payload_json, payload_json_spec};
use crate::router::{Delivery, RouteError, RoutingTable};
use crate::score::{parse_score, parse_spec};
use crate::text::starts_with;

// The pipeline: a multipart form submission comes in, an email is read
// out of it, a notification embed and its webhook payload are built,
// and one delivery per extracted recipient is planned against the
// routing table. Reading the request body, fetching attachment bytes
// and issuing the HTTP posts belong to the hosting runtime; everything
// that decides something happens here.
//
// Two behaviors are fixed deliberately: body text keeps up to 1000
// characters before the ellipsis marker, and recipients are routed one
// by one through the table with its default fallback, a missing route
// failing the whole request.

/// True when a request's content type announces a multipart form
/// submission.
pub fn is_multipart_content_type(content_type: &str) -> (r: bool)
    ensures
        r == crate::text::starts_with_spec(content_type@, "multipart/form-data"@),
{
    starts_with(content_type, "multipart/form-data")
}

/// Why a request fails: the form could not be parsed, or a recipient
/// could not be routed.
pub enum RelayError {
    Parse(ParseError),
    Route(RouteError),
}

/// Everything the hosting runtime needs to deliver one notification:
/// the parsed email, the built embed, its serialized payload document,
/// which attachments ride along, and one resolved endpoint per
/// recipient.
pub struct DeliveryPlan {
    pub email: Email,
    pub embed: Embed,
    pub payload_json: String,
    pub included: Vec<bool>,
    pub deliveries: Vec<Delivery>,
}

/// How processing a request ends: a delivery plan, a suppressed spam
/// submission acknowledged without delivery, or a failure.
pub enum RelayOutcome {
    Deliver(DeliveryPlan),
    Suppressed,
    Failed(RelayError),
}

/// The view of the optional score field of the form.
pub open spec fn spam_field_view(form: FormMap) -> Option<Seq<char>> {
    form.field_text("spam_score"@)
}

/// The recipient addresses of the form, as extracted from its "to"
/// field.
pub open spec fn recipients_view(form: FormMap) -> Seq<Seq<char>> {
    match form.field_text("to"@) {
        Some(to_raw) => extract_spec(to_raw),
        None => Seq::empty(),
    }
}

/// The full pipeline contract: which outcome comes back, and with what
/// content, for every form, threshold string and routing table.
pub open spec fn process_matches(
    form: FormMap,
    threshold_raw: Seq<char>,
    table: RoutingTable,
    r: RelayOutcome,
) -> bool {
    match r {
        RelayOutcome::Suppressed => parse_outcome_matches(form, ParseOutcome::Suppressed),
        RelayOutcome::Failed(RelayError::Parse(e)) => parse_outcome_matches(
            form,
            ParseOutcome::Failed(e),
        ),
        RelayOutcome::Failed(RelayError::Route(RouteError::NoRoute(a))) => {
            let tos = recipients_view(form);
            &&& required_missing(form) is None
            &&& !subject_suppressed(form)
            &&& attachment_result(form) is Ok
            &&& exists|i: int|
                {
                    &&& 0 <= i < tos.len()
                    &&& a@ == #[trigger] tos[i]
                    &&& table.spec_resolve(tos[i]) is None
                    &&& forall|k: int| 0 <= k < i ==> table.spec_resolve(#[trigger] tos[k]) is Some
                }
        },
        RelayOutcome::Deliver(plan) => {
            &&& parse_outcome_matches(form, ParseOutcome::Parsed(plan.email))
            &&& embed_matches(
                plan.email,
                spam_field_view(form),
                parse_spec(threshold_raw),
                plan.embed,
            )
            &&& plan.payload_json@ == payload_json_spec(plan.embed)
            &&& plan.included@.len() == plan.email.attachments@.len()
            &&& forall|i: int|
                0 <= i < plan.included@.len() ==> plan.included@[i] == included_spec(
                    plan.email.attachments@,
                    i,
                    ATTACHMENT_CAP as int,
                )
            &&& plan.deliveries@.len() == plan.email.to@.len()
            &&& forall|i: int|
                0 <= i < plan.deliveries@.len() ==> (#[trigger] plan.deliveries@[i]).address@
                    == plan.email.to@[i]@ && table.spec_resolve(plan.email.to@[i]@) == Some(
                    plan.deliveries@[i].url@,
                )
        },
    }
}

/// A spam-marked subject never yields a delivery and never an error:
/// whatever the threshold and the routing table, the whole pipeline
/// acknowledges the request with nothing to deliver, provided the
/// required fields are present.
pub proof fn lemma_spam_never_delivered(
    form: FormMap,
    threshold_raw: Seq<char>,
    table: RoutingTable,
    r: RelayOutcome,
)
    requires
        required_missing(form) is None,
        subject_suppressed(form),
        process_matches(form, threshold_raw, table, r),
    ensures
        r is Suppressed,
{
}

/// Runs the whole pipeline on one parsed form: parse, build, plan.
/// Reading the form, fetching attachment bytes and posting to the
/// endpoints stay with the caller.
pub fn process(form: &FormMap, threshold_raw: &str, table: &RoutingTable) -> (r: RelayOutcome)
    ensures
        process_matches(*form, threshold_raw@, *table, r),
{
    let email: Email = match Email::from_form_data(form) {
        ParseOutcome::Failed(e) => {
            return RelayOutcome::Failed(RelayError::Parse(e));
        },
        ParseOutcome::Suppressed => {
            return RelayOutcome::Suppressed;
        },
        ParseOutcome::Parsed(email) => email,
    };
    let spam_field: Option<String> = match form.get("spam_score") {
        Some(FormEntry::Field(s)) => Some(s.clone()),
        _ => None,
    };
    let threshold = parse_score(threshold_raw);
    let embed = build_embed(&email, spam_field.as_ref(), &threshold);
    let document = payload_json(&embed);
    let included = attachment_flags(&email.attachments, ATTACHMENT_CAP);
    let deliveries: Vec<Delivery> = match table.plan(&email.to) {
        Ok(ds) => ds,
        Err(e) => {
            proof {
                let tos = recipients_view(*form);
                assert(email.to@.map_values(|v: String| v@) == tos);
                if let RouteError::NoRoute(a) = &e {
                    let wi = choose|i: int|
                        {
                            &&& 0 <= i < email.to@.len()
                            &&& a@ == (#[trigger] email.to@[i])@
                            &&& table.spec_resolve(email.to@[i]@) is None
                            &&& forall|k: int|
                                0 <= k < i ==> table.spec_resolve(#[trigger] email.to@[k]@) is Some
                        };
                    assert(tos[wi] == email.to@[wi]@);
                    assert forall|k: int| 0 <= k < wi implies table.spec_resolve(
                        #[trigger] tos[k],
                    ) is Some by {
                        assert(tos[k] == email.to@[k]@);
                    }
                    assert({
                        &&& 0 <= wi < tos.len()
                        &&& a@ == tos[wi]
                        &&& table.spec_resolve(tos[wi]) is None
                        &&& forall|k: int|
                            0 <= k < wi ==> table.spec_resolve(#[trigger] tos[k]) is Some
                    });
                }
            }
            return RelayOutcome::Failed(RelayError::Route(e));
        },
    };
    RelayOutcome::Deliver(
        DeliveryPlan { email, embed, payload_json: document, included, deliveries },
    )
}

} // verus!
