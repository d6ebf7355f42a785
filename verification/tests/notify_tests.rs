use uzbot::datetime::CivilDateTime;
use uzbot::notify::{
    classify_incoming, extraction_error_message, handle_ticket_upload, ticket_added_message,
    IncomingKind,
};
use uzbot::store::{ChatId, MyDb};
use uzbot::ticket::{ParsePdfError, TicketData};

#[test]
fn test_ticket_added_message() {
    let t = TicketData {
        departure_datetime: CivilDateTime { year: 2024, month: 4, day: 10, hour: 15, minute: 49 },
        train_number: "705".to_owned(),
    };
    assert_eq!(
        ticket_added_message(&t),
        "Your ticket to train №705, departing at 2024-04-10 15:49, is added to monitoring!"
    );
}

#[test]
fn test_error_message_classes() {
    assert_eq!(
        extraction_error_message(&ParsePdfError::PdfExtractError),
        "Error extracting pdf data."
    );
    assert_eq!(
        extraction_error_message(&ParsePdfError::DepartureDateTimeAbsent),
        "Possibly, ticket layout has changed."
    );
    assert_eq!(
        extraction_error_message(&ParsePdfError::TrainNumberLineNotPoizd),
        "Possibly, ticket layout has changed."
    );
}

#[test]
fn test_upload_of_unparseable_text() {
    let mut db = MyDb::new();
    let r = handle_ticket_upload(&mut db, ChatId(9), "nothing that looks like a ticket");
    assert_eq!(r, Err("Possibly, ticket layout has changed.".to_owned()));
    assert_eq!(db.users().len(), 0);
}

#[test]
fn test_upload_of_good_text() {
    let mut db = MyDb::new();
    let user = ChatId(9);
    let doc = "Прізвище, Ім’я А Поїзд 705 Київ\nДата/час відпр. 10.04.2024 15:49 В\n";
    let r = handle_ticket_upload(&mut db, user, doc);
    assert_eq!(
        r,
        Ok("Your ticket to train №705, departing at 2024-04-10 15:49, is added to monitoring!"
            .to_owned())
    );
    let trains = db.retrieve_user_trains(user);
    assert_eq!(trains.len(), 1);
    assert_eq!(trains[0].train_number, "705");
}

#[test]
fn test_classify_incoming() {
    let start = "/start".to_owned();
    let link = "https://app.uz.gov.ua/ticket-abc123".to_owned();
    let other = "hello".to_owned();
    assert_eq!(classify_incoming(Some(&start), false), IncomingKind::Start);
    assert_eq!(classify_incoming(Some(&start), true), IncomingKind::Start);
    assert_eq!(classify_incoming(None, true), IncomingKind::Document);
    assert_eq!(classify_incoming(Some(&link), false), IncomingKind::UzLink);
    assert_eq!(classify_incoming(Some(&other), false), IncomingKind::Other);
    assert_eq!(classify_incoming(None, false), IncomingKind::Other);
}

#[test]
fn test_datetime_token_parsing() {
    assert_eq!(
        CivilDateTime::from_tokens("10.04.2024", "15:49"),
        Some(CivilDateTime { year: 2024, month: 4, day: 10, hour: 15, minute: 49 })
    );
    assert_eq!(CivilDateTime::from_tokens("31.04.2024", "15:49"), None);
    assert_eq!(CivilDateTime::from_tokens("10.13.2024", "15:49"), None);
    assert_eq!(CivilDateTime::from_tokens("10.04.2024", "24:00"), None);
    assert_eq!(CivilDateTime::from_tokens("10.04.2024", "23:60"), None);
    assert_eq!(CivilDateTime::from_tokens("1.4.2024", "15:49"), None);
}

#[test]
fn test_minutes_are_exact_differences() {
    let a = CivilDateTime { year: 2024, month: 2, day: 28, hour: 23, minute: 50 };
    let b = CivilDateTime { year: 2024, month: 3, day: 1, hour: 0, minute: 10 };
    // 2024 is a leap year: Feb 29 lies between.
    assert_eq!(b.minutes() - a.minutes(), 24 * 60 + 20);
    let c = CivilDateTime { year: 2023, month: 2, day: 28, hour: 23, minute: 50 };
    let d = CivilDateTime { year: 2023, month: 3, day: 1, hour: 0, minute: 10 };
    assert_eq!(d.minutes() - c.minutes(), 20);
}
