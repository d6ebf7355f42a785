use uzbot::datetime::CivilDateTime;
use uzbot::store::{ChatId, DatabaseError, MyDb};
use uzbot::ticket::TicketData;

fn kyiv(year: u64, month: u64, day: u64, hour: u64, minute: u64) -> CivilDateTime {
    CivilDateTime { year, month, day, hour, minute }
}

#[test]
fn test_retrieve_user_trains() {
    let mut db = MyDb::new();

    let departure_datetime = kyiv(2024, 4, 9, 20, 36);
    let train_number = "35".to_owned();
    let chat_id1 = ChatId(144441960);
    db.insert_ticket_data(
        chat_id1,
        TicketData {
            departure_datetime,
            train_number: train_number.clone(),
        },
    )
    .unwrap();
    let chat_id2 = ChatId(144441961);

    db.insert_ticket_data(
        chat_id2,
        TicketData {
            departure_datetime,
            train_number: train_number.clone(),
        },
    )
    .unwrap();

    let mut user_trains = db.retrieve_user_trains(chat_id1);

    assert_eq!(user_trains.len(), 1, "len of data must be 1");

    let first_elem = user_trains.remove(0);

    assert_eq!(first_elem.departure_datetime, departure_datetime);

    assert_eq!(first_elem.train_number, train_number);
}

#[test]
fn test_get_all_users() {
    let mut db = MyDb::new();

    let departure_datetime = kyiv(2024, 4, 9, 20, 36);
    let train_number = "35".to_owned();
    let chat_id1 = ChatId(144441960);
    db.insert_ticket_data(
        chat_id1,
        TicketData {
            departure_datetime,
            train_number: train_number.clone(),
        },
    )
    .unwrap();
    let chat_id2 = ChatId(144441961);

    db.insert_ticket_data(
        chat_id2,
        TicketData {
            departure_datetime,
            train_number: train_number.clone(),
        },
    )
    .unwrap();

    let mut user_trains = db.users();

    assert_eq!(
        user_trains.len(),
        2,
        "len of users must be 2, but it is {}",
        user_trains.len()
    );

    let (first_user, mut first_user_trains) = user_trains.remove(0);

    assert_eq!(first_user, chat_id1, "first user is not {}", chat_id1.0);
    assert_eq!(
        first_user_trains.len(),
        1,
        "len of data must be 1, but it is {}",
        first_user_trains.len()
    );

    let first_train = first_user_trains.remove(0);

    assert_eq!(first_train.departure_datetime, departure_datetime);

    assert_eq!(first_train.train_number, train_number);
}

#[test]
fn test_upsert_idempotent() {
    let mut db = MyDb::new();
    let user = ChatId(7);
    let ticket = TicketData {
        departure_datetime: kyiv(2024, 4, 10, 15, 49),
        train_number: "705".to_owned(),
    };
    db.insert_ticket_data(user, ticket.clone()).unwrap();
    db.insert_ticket_data(user, ticket.clone()).unwrap();
    let trains = db.retrieve_user_trains(user);
    assert_eq!(trains.len(), 1);
    assert_eq!(trains[0], ticket);
}

#[test]
fn test_isolation_between_users() {
    let mut db = MyDb::new();
    let a = ChatId(1);
    let b = ChatId(2);
    let ticket = TicketData {
        departure_datetime: kyiv(2024, 4, 10, 15, 49),
        train_number: "705".to_owned(),
    };
    db.insert_ticket_data(a, ticket.clone()).unwrap();
    assert_eq!(db.retrieve_user_trains(b).len(), 0);
    db.insert_ticket_data(b, TicketData {
        departure_datetime: kyiv(2024, 5, 1, 8, 0),
        train_number: "99".to_owned(),
    })
    .unwrap();
    let a_trains = db.retrieve_user_trains(a);
    assert_eq!(a_trains.len(), 1);
    assert_eq!(a_trains[0].train_number, "705");
}

#[test]
fn test_remove_unknown_user() {
    let mut db = MyDb::new();
    let ticket = TicketData {
        departure_datetime: kyiv(2024, 4, 10, 15, 49),
        train_number: "705".to_owned(),
    };
    let r = db.remove_user_train(ChatId(5), ticket);
    assert!(matches!(r, Err(DatabaseError::UserNotExisting)));
}

#[test]
fn test_remove_ticket() {
    let mut db = MyDb::new();
    let user = ChatId(5);
    let ticket = TicketData {
        departure_datetime: kyiv(2024, 4, 10, 15, 49),
        train_number: "705".to_owned(),
    };
    db.insert_ticket_data(user, ticket.clone()).unwrap();
    db.remove_user_train(user, ticket).unwrap();
    assert_eq!(db.retrieve_user_trains(user).len(), 0);
}
