//! Ticket record extraction: from the text of an uploaded ticket document to
//! a structured record of the monitored departure.

use vstd::prelude::*;
use crate::chars::{
    spec_first_pref_line_start, spec_line_end, spec_nth_token, spec_find_sub, spec_find_char,
    find_labeled_line, nth_token, find_sub_from, find_char_from,
};
use crate::datetime::{CivilDateTime, spec_combine_tokens};

verus! {

/// One failure kind per way a ticket document can be rejected; the kinds are
/// distinct and non-overlapping.
#[derive(Debug, Clone, PartialEq, Eq)]
pub enum ParsePdfError {
    /// The underlying text extraction of the document failed; raised by the
    /// caller that decodes the document, never by the text parse itself.
    PdfExtractError,
    /// No line starts with the departure date/time label.
    DepartureDateTimeAbsent,
    /// No line starts with the passenger name label.
    TrainNumberLineAbsent,
    /// The passenger line has no train marker.
    TrainNumberLineNotPoizd,
    /// The passenger line has no space ending the train number.
    TrainNumberLineNotTrainNumber,
    /// The departure line has no third whitespace token.
    DepartureDateAbsent,
    /// The departure line has no fourth whitespace token.
    DepartureTimeAbsent,
    /// The date and time tokens do not denote a valid date-time.
    TimeParse,
    /// Never produced; reserved for a failure on the train number itself.
    ParseTrainNumber(String),
}

/// A monitored departure: immutable once created, equal by value.
#[derive(Debug, PartialEq, Eq, Hash, Clone)]
pub struct TicketData {
    pub departure_datetime: CivilDateTime,
    pub train_number: String,
}

/// Mathematical image of a [`TicketData`].
pub struct TicketView {
    pub departure_datetime: CivilDateTime,
    pub train_number: Seq<char>,
}

impl View for TicketData {
    type V = TicketView;

    open spec fn view(&self) -> TicketView {
        TicketView { departure_datetime: self.departure_datetime, train_number: self.train_number@ }
    }
}

impl DeepView for TicketData {
    type V = TicketView;

    open spec fn deep_view(&self) -> TicketView {
        self.view()
    }
}

/// Label that opens the departure line of a ticket document.
pub open spec fn departure_label() -> Seq<char> {
    "Дата/час відпр. "@
}

/// Label that opens the passenger line of a ticket document.
pub open spec fn passenger_label() -> Seq<char> {
    "Прізвище, Ім’я"@
}

/// Marker that precedes the train number on the passenger line.
pub open spec fn train_marker() -> Seq<char> {
    "Поїзд "@
}

/// The whole meaning of ticket extraction from document text: which record a
/// text denotes, or exactly which failure kind it is rejected with.
pub open spec fn spec_parse_departure(s: Seq<char>) -> Result<TicketView, ParsePdfError> {
    match spec_first_pref_line_start(s, departure_label(), 0) {
        None => Err(ParsePdfError::DepartureDateTimeAbsent),
        Some(ls) => {
            let line = s.subrange(ls, spec_line_end(s, ls));
            match spec_nth_token(line, 0, 2) {
                None => Err(ParsePdfError::DepartureDateAbsent),
                Some(dtok) => match spec_nth_token(line, 0, 3) {
                    None => Err(ParsePdfError::DepartureTimeAbsent),
                    Some(ttok) => match spec_combine_tokens(
                        line.subrange(dtok.0, dtok.1),
                        line.subrange(ttok.0, ttok.1),
                    ) {
                        None => Err(ParsePdfError::TimeParse),
                        Some(dt) => spec_parse_train_number(s, dt),
                    },
                },
            }
        },
    }
}

/// Second half of extraction: the train number from the passenger line.
pub open spec fn spec_parse_train_number(s: Seq<char>, dt: CivilDateTime) -> Result<
    TicketView,
    ParsePdfError,
> {
    match spec_first_pref_line_start(s, passenger_label(), 0) {
        None => Err(ParsePdfError::TrainNumberLineAbsent),
        Some(ls) => {
            let line = s.subrange(ls, spec_line_end(s, ls));
            match spec_find_sub(line, train_marker(), 0) {
                None => Err(ParsePdfError::TrainNumberLineNotPoizd),
                Some(mi) => {
                    let after = line.subrange(mi + train_marker().len(), line.len() as int);
                    match spec_find_char(after, ' ', 0) {
                        None => Err(ParsePdfError::TrainNumberLineNotTrainNumber),
                        Some(sp) => Ok(
                            (TicketView {
                                departure_datetime: dt,
                                train_number: after.subrange(0, sp),
                            }),
                        ),
                    }
                },
            }
        },
    }
}

/// Extract the ticket record from the plain text of a ticket document.
///
/// The document must hold a line starting with the departure label, whose
/// third and fourth whitespace tokens are a `DD.MM.YYYY` date and an `HH:MM`
/// time denoting a valid civil date-time, and a line starting with the
/// passenger label holding the train marker followed by the train number and
/// a closing space.  Each missing piece is reported as its own error kind.
pub fn parse_departure_data_from_text(text: &str) -> (r: Result<TicketData, ParsePdfError>)
    ensures
        match r {
            Ok(t) => spec_parse_departure(text@) == Ok::<TicketView, ParsePdfError>(t@) && t@
                .departure_datetime.wf(),
            Err(e) => spec_parse_departure(text@) == Err::<TicketView, ParsePdfError>(e),
        },
{
    let dep_line = match find_labeled_line(text, "Дата/час відпр. ") {
        Some(p) => p,
        None => {
            return Err(ParsePdfError::DepartureDateTimeAbsent);
        },
    };
    let line = text.substring_char(dep_line.0, dep_line.1);
    let dtok = match nth_token(line, 2) {
        Some(t) => t,
        None => {
            return Err(ParsePdfError::DepartureDateAbsent);
        },
    };
    let ttok = match nth_token(line, 3) {
        Some(t) => t,
        None => {
            return Err(ParsePdfError::DepartureTimeAbsent);
        },
    };
    let date_str = line.substring_char(dtok.0, dtok.1);
    let time_str = line.substring_char(ttok.0, ttok.1);
    let dt = match CivilDateTime::from_tokens(date_str, time_str) {
        Some(dt) => dt,
        None => {
            return Err(ParsePdfError::TimeParse);
        },
    };
    parse_train_number(text, dt)
}

fn parse_train_number(text: &str, dt: CivilDateTime) -> (r: Result<TicketData, ParsePdfError>)
    requires
        dt.wf(),
    ensures
        match r {
            Ok(t) => spec_parse_train_number(text@, dt) == Ok::<TicketView, ParsePdfError>(t@) && t@
                .departure_datetime.wf(),
            Err(e) => spec_parse_train_number(text@, dt) == Err::<TicketView, ParsePdfError>(e),
        },
{
    let pass_line = match find_labeled_line(text, "Прізвище, Ім’я") {
        Some(p) => p,
        None => {
            return Err(ParsePdfError::TrainNumberLineAbsent);
        },
    };
    let line = text.substring_char(pass_line.0, pass_line.1);
    let marker = "Поїзд ";
    proof {
        reveal_strlit("Поїзд ");
    }
    let mi = match find_sub_from(line, marker, 0) {
        Some(i) => i,
        None => {
            return Err(ParsePdfError::TrainNumberLineNotPoizd);
        },
    };
    let after = line.substring_char(mi + marker.unicode_len(), line.unicode_len());
    let sp = match find_char_from(after, ' ', 0) {
        Some(i) => i,
        None => {
            return Err(ParsePdfError::TrainNumberLineNotTrainNumber);
        },
    };
    let number = after.substring_char(0, sp);
    Ok(TicketData { departure_datetime: dt, train_number: number.to_owned() })
}

/// Malformed documents are distinguishable: a document with no line starting
/// with the departure label is rejected with its own kind, a document whose
/// passenger line lacks the train marker with another, and the two never
/// coincide.
pub proof fn lemma_malformed_documents_distinguishable(s1: Seq<char>, s2: Seq<char>)
    requires
        spec_first_pref_line_start(s1, departure_label(), 0) is None,
        match spec_first_pref_line_start(s2, passenger_label(), 0) {
            Some(ls) => spec_find_sub(
                s2.subrange(ls, spec_line_end(s2, ls)),
                train_marker(),
                0,
            ) is None,
            None => false,
        },
    ensures
        spec_parse_departure(s1) == Err::<TicketView, ParsePdfError>(
            ParsePdfError::DepartureDateTimeAbsent,
        ),
        forall|dt: CivilDateTime| #[trigger] spec_parse_train_number(s2, dt) == Err::<
            TicketView,
            ParsePdfError,
        >(ParsePdfError::TrainNumberLineNotPoizd),
        forall|dt: CivilDateTime| spec_parse_departure(s1) != #[trigger] spec_parse_train_number(
            s2,
            dt,
        ),
{
}

} // verus!
