use uzbot::datetime::CivilDateTime;
use uzbot::delayed_trains::{DelayedTrain, DelayedTrains, TrainDelayTime, TrainDirection, TrainNumbers};
use uzbot::monitor::{find_delayed_train, notify_before_train_desc, process_cycle};
use uzbot::notify::build_train_notification_message;
use uzbot::store::{ChatId, MyDb};
use uzbot::ticket::TicketData;
use uzbot::tracker::NotificationTracker;

fn kyiv(year: u64, month: u64, day: u64, hour: u64, minute: u64) -> CivilDateTime {
    CivilDateTime { year, month, day, hour, minute }
}

fn delay_705() -> DelayedTrains {
    DelayedTrains(vec![DelayedTrain {
        direction: TrainDirection("Пшемисль Головний-Київ-Пас.".to_owned()),
        numbers: TrainNumbers(vec!["705".to_owned(), "706".to_owned()]),
        delay: TrainDelayTime { hr: 0, min: 30 },
    }])
}

#[test]
fn test_delay_projection_message() {
    let ticket = TicketData {
        departure_datetime: kyiv(2024, 4, 10, 15, 49),
        train_number: "705".to_owned(),
    };
    let delays = delay_705();
    let msg = build_train_notification_message(ticket, Some(&delays.0[0]));
    assert_eq!(
        msg,
        "Your train №705 Пшемисль Головний-Київ-Пас. is delayed by 30 minutes.\nProbable arrival time is 16:19 Kyiv time."
    );
}

#[test]
fn test_no_match_fallback_message() {
    let ticket = TicketData {
        departure_datetime: kyiv(2024, 4, 10, 15, 49),
        train_number: "705".to_owned(),
    };
    let msg = build_train_notification_message(ticket, None);
    assert_eq!(
        msg,
        "No delays found for your train №705!\nArrival time is 15:49 Kyiv time."
    );
}

#[test]
fn test_delay_projection_crosses_midnight() {
    let ticket = TicketData {
        departure_datetime: kyiv(2024, 4, 10, 23, 50),
        train_number: "705".to_owned(),
    };
    let delays = delay_705();
    let msg = build_train_notification_message(ticket, Some(&delays.0[0]));
    assert!(msg.ends_with("Probable arrival time is 00:20 Kyiv time."));
}

#[test]
fn test_find_delayed_train_by_alias() {
    let delays = delay_705();
    assert_eq!(find_delayed_train(&delays, &"706".to_owned()), Some(0));
    assert_eq!(find_delayed_train(&delays, &"999".to_owned()), None);
}

#[test]
fn test_threshold_selection_first_evaluation() {
    // Thresholds [15m, 30m, 60m] are processed descending as [60, 30, 15];
    // the scan fires the first unfired threshold whose window holds the
    // departure, so a ticket departing in 20 minutes fires the 60-minute
    // threshold on first evaluation, 30 on the second, 15 on the third.
    let thresholds = notify_before_train_desc();
    assert_eq!(thresholds, vec![60, 30, 15]);
    let mut tracker = NotificationTracker::new();
    let user = ChatId(1);
    let now = kyiv(2024, 4, 10, 15, 0).minutes();
    let dep = kyiv(2024, 4, 10, 15, 20).minutes();
    assert_eq!(tracker.note_ticket(user, &thresholds, now, dep), Some(60));
    assert_eq!(tracker.note_ticket(user, &thresholds, now, dep), Some(30));
    // 20 minutes out lies outside the 15-minute window: nothing more fires.
    assert_eq!(tracker.note_ticket(user, &thresholds, now, dep), None);
    assert_eq!(tracker.fired_count(user), 2);

    // A departure 10 minutes out walks through all three windows.
    let mut tracker2 = NotificationTracker::new();
    let dep2 = kyiv(2024, 4, 10, 15, 10).minutes();
    assert_eq!(tracker2.note_ticket(user, &thresholds, now, dep2), Some(60));
    assert_eq!(tracker2.note_ticket(user, &thresholds, now, dep2), Some(30));
    assert_eq!(tracker2.note_ticket(user, &thresholds, now, dep2), Some(15));
    assert_eq!(tracker2.note_ticket(user, &thresholds, now, dep2), None);
    assert_eq!(tracker2.fired_count(user), 3);
}

#[test]
fn test_threshold_window_excludes_departed() {
    let thresholds = notify_before_train_desc();
    let mut tracker = NotificationTracker::new();
    let user = ChatId(1);
    let now = kyiv(2024, 4, 10, 15, 0).minutes();
    // Already departed: no window holds.
    assert_eq!(tracker.note_ticket(user, &thresholds, now, now), None);
    // Too far out: no window holds.
    let far = kyiv(2024, 4, 10, 17, 0).minutes();
    assert_eq!(tracker.note_ticket(user, &thresholds, now, far), None);
    assert_eq!(tracker.fired_count(user), 0);
}

#[test]
fn test_exhaustion_eviction_over_cycles() {
    let thresholds = notify_before_train_desc();
    let mut db = MyDb::new();
    let mut tracker = NotificationTracker::new();
    let user = ChatId(42);
    let ticket = TicketData {
        departure_datetime: kyiv(2024, 4, 10, 15, 10),
        train_number: "705".to_owned(),
    };
    db.insert_ticket_data(user, ticket).unwrap();
    let now = kyiv(2024, 4, 10, 15, 0);
    let delays = delay_705();

    // Three cycles fire the three windows, one per cycle.
    for _ in 0..3 {
        let msgs = process_cycle(&mut db, &mut tracker, &thresholds, &now, &delays);
        assert_eq!(msgs.len(), 1);
        assert_eq!(msgs[0].0, user);
        assert_eq!(db.retrieve_user_trains(user).len(), 1);
    }

    // The fourth evaluation finds the windows exhausted and evicts.
    let msgs = process_cycle(&mut db, &mut tracker, &thresholds, &now, &delays);
    assert_eq!(msgs.len(), 0);
    assert_eq!(db.retrieve_user_trains(user).len(), 0);
}

#[test]
fn test_cycle_message_content() {
    let thresholds = notify_before_train_desc();
    let mut db = MyDb::new();
    let mut tracker = NotificationTracker::new();
    let user = ChatId(42);
    db.insert_ticket_data(user, TicketData {
        departure_datetime: kyiv(2024, 4, 10, 15, 49),
        train_number: "705".to_owned(),
    })
    .unwrap();
    let now = kyiv(2024, 4, 10, 15, 0);
    let msgs = process_cycle(&mut db, &mut tracker, &thresholds, &now, &delay_705());
    assert_eq!(msgs.len(), 1);
    assert_eq!(
        msgs[0].1,
        "Your train №705 Пшемисль Головний-Київ-Пас. is delayed by 30 minutes.\nProbable arrival time is 16:19 Kyiv time."
    );

    let mut db2 = MyDb::new();
    let mut tracker2 = NotificationTracker::new();
    db2.insert_ticket_data(user, TicketData {
        departure_datetime: kyiv(2024, 4, 10, 15, 49),
        train_number: "888".to_owned(),
    })
    .unwrap();
    let msgs2 = process_cycle(&mut db2, &mut tracker2, &thresholds, &now, &delay_705());
    assert_eq!(msgs2.len(), 1);
    assert_eq!(
        msgs2[0].1,
        "No delays found for your train №888!\nArrival time is 15:49 Kyiv time."
    );
}

#[test]
fn test_shared_per_user_window_state() {
    // The fired-threshold set is keyed by user alone: one ticket reaching a
    // window uses it up for the user's other tickets in the same cycle.
    let thresholds = notify_before_train_desc();
    let mut db = MyDb::new();
    let mut tracker = NotificationTracker::new();
    let user = ChatId(42);
    db.insert_ticket_data(user, TicketData {
        departure_datetime: kyiv(2024, 4, 10, 15, 20),
        train_number: "705".to_owned(),
    })
    .unwrap();
    db.insert_ticket_data(user, TicketData {
        departure_datetime: kyiv(2024, 4, 10, 15, 25),
        train_number: "749".to_owned(),
    })
    .unwrap();
    let now = kyiv(2024, 4, 10, 15, 0);
    let msgs = process_cycle(&mut db, &mut tracker, &thresholds, &now, &delay_705());
    // First ticket fires 60, second fires 30: one message each.
    assert_eq!(msgs.len(), 2);
}
