use uzbot::datetime::CivilDateTime;
use uzbot::ticket::{parse_departure_data_from_text, ParsePdfError};

const GOOD_TICKET: &str = "Квиток\nПрізвище, Ім’я Шевченко Тарас Поїзд 705К Київ\nДата/час відпр. 10.04.2024 15:49 Вагон 3\n";

#[test]
fn test_parse_good_ticket() {
    let t = parse_departure_data_from_text(GOOD_TICKET).unwrap();
    assert_eq!(t.train_number, "705К");
    assert_eq!(
        t.departure_datetime,
        CivilDateTime { year: 2024, month: 4, day: 10, hour: 15, minute: 49 }
    );
}

#[test]
fn test_departure_label_absent() {
    let doc = "Квиток\nПрізвище, Ім’я Шевченко Поїзд 705 Київ\n";
    let r = parse_departure_data_from_text(doc);
    assert!(matches!(r, Err(ParsePdfError::DepartureDateTimeAbsent)));
}

#[test]
fn test_train_marker_absent() {
    let doc = "Прізвище, Ім’я Шевченко 705 Київ\nДата/час відпр. 10.04.2024 15:49 Вагон\n";
    let r = parse_departure_data_from_text(doc);
    assert!(matches!(r, Err(ParsePdfError::TrainNumberLineNotPoizd)));
}

#[test]
fn test_error_kinds_distinguishable() {
    let no_label = parse_departure_data_from_text("Прізвище, Ім’я А Поїзд 705 Київ\n");
    let no_marker = parse_departure_data_from_text(
        "Прізвище, Ім’я А 705 Київ\nДата/час відпр. 10.04.2024 15:49 В\n",
    );
    assert_ne!(no_label, no_marker);
    assert!(matches!(no_label, Err(ParsePdfError::DepartureDateTimeAbsent)));
    assert!(matches!(no_marker, Err(ParsePdfError::TrainNumberLineNotPoizd)));
}

#[test]
fn test_date_token_absent() {
    let doc = "Дата/час відпр. \n";
    let r = parse_departure_data_from_text(doc);
    assert!(matches!(r, Err(ParsePdfError::DepartureDateAbsent)));
}

#[test]
fn test_time_token_absent() {
    let doc = "Дата/час відпр. 10.04.2024\n";
    let r = parse_departure_data_from_text(doc);
    assert!(matches!(r, Err(ParsePdfError::DepartureTimeAbsent)));
}

#[test]
fn test_unparsable_date() {
    let doc = "Дата/час відпр. 99.99.2024 15:49\n";
    let r = parse_departure_data_from_text(doc);
    assert!(matches!(r, Err(ParsePdfError::TimeParse)));
}

#[test]
fn test_leap_year_date() {
    let ok = "Прізвище, Ім’я А Поїзд 705 Київ\nДата/час відпр. 29.02.2024 00:00 В\n";
    assert!(parse_departure_data_from_text(ok).is_ok());
    let bad = "Прізвище, Ім’я А Поїзд 705 Київ\nДата/час відпр. 29.02.2023 00:00 В\n";
    assert!(matches!(
        parse_departure_data_from_text(bad),
        Err(ParsePdfError::TimeParse)
    ));
}

#[test]
fn test_number_terminator_absent() {
    let doc = "Прізвище, Ім’я А Поїзд 705\nДата/час відпр. 10.04.2024 15:49 В\n";
    let r = parse_departure_data_from_text(doc);
    assert!(matches!(r, Err(ParsePdfError::TrainNumberLineNotTrainNumber)));
}
