//! Outbound message texts: delay notifications, ingestion replies, and the
//! routing of incoming messages.

use vstd::prelude::*;
use crate::datetime::{spec_datetime_str, append_datetime};
use crate::delayed_trains::{DelayedTrain, DelayView, TrainDelayTime};
use crate::digits::{spec_dec_digits, spec_two_digits, append_u64, append_two_digits};
use crate::store::{ChatId, MyDb, spec_upsert};
use crate::ticket::{ParsePdfError, TicketData, TicketView, spec_parse_departure};

verus! {

/// Minutes of delay that a delay record reports.
pub open spec fn spec_delay_minutes(d: TrainDelayTime) -> int {
    d.hr * 60 + d.min
}

/// Clock time of the departure shifted by the delay, as minutes of the day.
pub open spec fn spec_adjusted_tod(dep: crate::datetime::CivilDateTime, dm: int) -> int {
    (dep.hour * 60 + dep.minute + dm) % 1440
}

/// The delayed-train notification text, exactly as delivered.
pub open spec fn spec_delayed_message(t: TicketView, d: DelayView) -> Seq<char> {
    let dm = spec_delay_minutes(d.delay);
    let tod = spec_adjusted_tod(t.departure_datetime, dm);
    "Your train №"@ + t.train_number + " "@ + d.direction + " is delayed by "@ + spec_dec_digits(
        dm,
    ) + " minutes.\nProbable arrival time is "@ + spec_two_digits(tod / 60) + ":"@
        + spec_two_digits(tod % 60) + " Kyiv time."@
}

/// The no-delay notification text, exactly as delivered.
pub open spec fn spec_ontime_message(t: TicketView) -> Seq<char> {
    "No delays found for your train №"@ + t.train_number + "!\nArrival time is "@ + spec_two_digits(
        t.departure_datetime.hour as int,
    ) + ":"@ + spec_two_digits(t.departure_datetime.minute as int) + " Kyiv time."@
}

/// Build the notification for one ticket: the delayed text when a matching
/// delay record is at hand, the no-delay text otherwise.
pub fn build_train_notification_message(
    user_ticket: TicketData,
    delayed_train: Option<&DelayedTrain>,
) -> (r: String)
    requires
        user_ticket@.departure_datetime.wf(),
        delayed_train matches Some(d) ==> spec_delay_minutes(d.delay) <= u64::MAX,
    ensures
        r@ == (match delayed_train {
            Some(d) => spec_delayed_message(user_ticket@, d@),
            None => spec_ontime_message(user_ticket@),
        }),
{
    let mut out = String::new();
    match delayed_train {
        Some(d) => {
            let dm: u64 = (d.delay.hr as u64) * 60 + (d.delay.min as u64);
            let tod: u64 = (((user_ticket.departure_datetime.hour * 60
                + user_ticket.departure_datetime.minute) as u128 + dm as u128) % 1440) as u64;
            out.append("Your train №");
            out.append(user_ticket.train_number.as_str());
            out.append(" ");
            out.append(d.direction.as_str());
            out.append(" is delayed by ");
            append_u64(&mut out, dm);
            out.append(" minutes.\nProbable arrival time is ");
            append_two_digits(&mut out, tod / 60);
            out.append(":");
            append_two_digits(&mut out, tod % 60);
            out.append(" Kyiv time.");
            proof {
                assert(out@ =~= spec_delayed_message(user_ticket@, d@));
            }
        },
        None => {
            out.append("No delays found for your train №");
            out.append(user_ticket.train_number.as_str());
            out.append("!\nArrival time is ");
            append_two_digits(&mut out, user_ticket.departure_datetime.hour);
            out.append(":");
            append_two_digits(&mut out, user_ticket.departure_datetime.minute);
            out.append(" Kyiv time.");
            proof {
                assert(out@ =~= spec_ontime_message(user_ticket@));
            }
        },
    }
    out
}

/// The ingestion confirmation text, exactly as delivered.
pub open spec fn spec_added_message(t: TicketView) -> Seq<char> {
    "Your ticket to train №"@ + t.train_number + ", departing at "@ + spec_datetime_str(
        t.departure_datetime,
    ) + ", is added to monitoring!"@
}

/// Build the confirmation sent after a ticket is stored.
pub fn ticket_added_message(t: &TicketData) -> (r: String)
    requires
        t@.departure_datetime.wf(),
    ensures
        r@ == spec_added_message(t@),
{
    let mut out = String::new();
    out.append("Your ticket to train №");
    out.append(t.train_number.as_str());
    out.append(", departing at ");
    append_datetime(&mut out, &t.departure_datetime);
    out.append(", is added to monitoring!");
    proof {
        assert(out@ =~= spec_added_message(t@));
    }
    out
}

/// The reply for a failed extraction, split in two classes: text-extraction
/// failures get the generic text, every structural parse failure the
/// layout-drift text.
pub fn extraction_error_message(e: &ParsePdfError) -> (r: String)
    ensures
        e is PdfExtractError ==> r@ == "Error extracting pdf data."@,
        !(e is PdfExtractError) ==> r@ == "Possibly, ticket layout has changed."@,
{
    match e {
        ParsePdfError::PdfExtractError => {
            let mut out = String::new();
            out.append("Error extracting pdf data.");
            out
        },
        _ => {
            let mut out = String::new();
            out.append("Possibly, ticket layout has changed.");
            out
        },
    }
}

/// One uploaded ticket's text, handled end to end: parse, store, reply.
///
/// When the text denotes a ticket, that ticket is upserted for the user and
/// the confirmation text is returned; otherwise the store is untouched and
/// the user-facing error text for the parse's failure kind is returned.
/// Decoding the document into text is the caller's step; its failure maps to
/// `ParsePdfError::PdfExtractError` and its reply via
/// [`extraction_error_message`].
pub fn handle_ticket_upload(db: &mut MyDb, user: ChatId, text: &str) -> (r: Result<String, String>)
    requires
        old(db).wf(),
    ensures
        final(db).wf(),
        match spec_parse_departure(text@) {
            Ok(tv) => r matches Ok(m) && m@ == spec_added_message(tv) && final(db).spec_entries()
                == spec_upsert(old(db).spec_entries(), user, tv),
            Err(e) => r matches Err(m) && final(db).spec_entries() == old(db).spec_entries() && m@
                == (if e is PdfExtractError {
                "Error extracting pdf data."@
            } else {
                "Possibly, ticket layout has changed."@
            }),
        },
{
    match crate::ticket::parse_departure_data_from_text(text) {
        Err(e) => Err(extraction_error_message(&e)),
        Ok(t) => {
            let msg = ticket_added_message(&t);
            let _ = db.insert_ticket_data(user, t);
            Ok(msg)
        },
    }
}

/// What an incoming message asks for.
#[derive(PartialEq, Eq, Structural, Clone, Copy, Debug)]
pub enum IncomingKind {
    /// The start command: greet the user.
    Start,
    /// A document attachment: treat it as a ticket upload.
    Document,
    /// A ticket link: download the referenced document.
    UzLink,
    /// Anything else: tell the user what is accepted.
    Other,
}

/// How an incoming message is routed: the start command first, then an
/// attached document, then a ticket link, and everything else rejected.
pub open spec fn spec_classify(text: Option<Seq<char>>, has_document: bool) -> IncomingKind {
    if text == Some("/start"@) {
        IncomingKind::Start
    } else if has_document {
        IncomingKind::Document
    } else {
        match text {
            Some(t) => {
                if crate::chars::matches_at(t, "https://app.uz.gov.ua/ticket-"@, 0) {
                    IncomingKind::UzLink
                } else {
                    IncomingKind::Other
                }
            },
            None => IncomingKind::Other,
        }
    }
}

/// Route one incoming message.
pub fn classify_incoming(text: Option<&String>, has_document: bool) -> (r: IncomingKind)
    ensures
        r == spec_classify(
            match text {
                Some(t) => Some(t@),
                None => None,
            },
            has_document,
        ),
{
    match text {
        Some(t) => {
            if crate::html::str_eq_str(t.as_str(), "/start") {
                return IncomingKind::Start;
            }
            if has_document {
                return IncomingKind::Document;
            }
            if crate::chars::check_match_at(t.as_str(), "https://app.uz.gov.ua/ticket-", 0) {
                IncomingKind::UzLink
            } else {
                IncomingKind::Other
            }
        },
        None => {
            if has_document {
                IncomingKind::Document
            } else {
                IncomingKind::Other
            }
        },
    }
}

} // verus!
