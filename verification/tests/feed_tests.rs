use uzbot::delayed_trains::{
    parse_delay_time, parse_entry, parse_train_numbers, DelayedTrains, TrainDelayTime,
    UzParseError,
};

#[test]
fn test_page_parser() {
    let input = r###"<!DOCTYPE html>
        <html lang="uk">
        <head>
            <meta charset="utf-8">
            <meta http-equiv="Content-Type" content="text/html; charset=utf-8"/>
            <meta http-equiv="X-UA-Compatible" content="IE=edge">
            <meta http-equiv="cleartype" content="on">
            <meta name="MobileOptimized" content="320">
            <meta name="HandheldFriendly" content="True">
            <meta name="apple-mobile-web-app-capable" content="yes">
            <meta name="viewport" content="width=device-width, initial-scale=1">

            <link rel="icon" type="image/png" href="/frontend/images/favicon.png" sizes="16x16">

            <meta property="og:image" content="/frontend/images/og_image.jpg">
            <meta property="og:type" content="website" />
            <meta property="og:title" content="Поїзди що затримуються" />
            <meta property="og:description" content="Поїзди що затримуються" />
            <meta property="og:url" content="http://uz-vezemo.uz.gov.ua/delayform" />
            <meta property="og:site_name" content="uz-vezemo.com" />

            <meta name="theme-color" content="#262a82">

            <title>Поїзди що затримуються</title>
            <meta name="description" content="Поїзди що затримуються">


            <link href="/frontend/css/app.css" rel="stylesheet"/>
            <link href="/frontend/css/jquery-ui.css" rel="stylesheet"/>

            <meta name="csrf-token" content="xummgynXxfvMA7cct0hOXYmgGEbE1IWBLxXxQOx4">

            <script async src="https://www.googletagmanager.com/gtag/js?id=G-S5W7SHH1G8"></script>
            <script>
                window.dataLayer = window.dataLayer || [];

                function gtag() {
                    dataLayer.push(arguments);
                }

                gtag("js", new Date());

                gtag("config", "G-S5W7SHH1G8");
            </script>
        </head>

        <body class="delayform">









        <div class="wrapper delayform-page">
                <main>
                <section class="delayform-wrapper">
                    <a href="https://uz-vezemo.uz.gov.ua" class="arrow-heroe">
                        <img src="/frontend/images/arrow-heroe-back.png" alt="arrow"/> </a>
                    <div class="container">
                        <div class="delayform__in">
                            <div class="delayform-title">Затримуються наступні поїзди</div>



                                <ul class="delayform-list ">

                                                                    <li>№705/706 Пшемисль Головний-Київ-Пас. (+0:30)</li>
                                                                    <li>№749/750 Київ-Пас.-Відень Головний (+0:11)</li>
                                                                    <li>№721/722 Київ-Пас.-Харків-Пас. (+0:09)</li>
                                                            </ul>
                                                <div class="search-delays--js"></div>
                        </div>
                    </div>
                </section>
            </main>
        </div>

        <script src="/frontend/js/jq.js"></script>
        <script src="/frontend/js/jquery-ui.js"></script>
        <script src="/frontend/js/datepicker-uk.js"></script>
        <script src="/frontend/js/main.js"></script>
        <script src="/frontend/js/search-train-form.js"></script>

        <script src="/frontend/js/delays.js"></script>
        </body>
        </html>"###;

    let trains: DelayedTrains = input.parse().expect("Error parsing input");

    assert_eq!(trains.0.len(), 3);

    assert_eq!(trains.0[0].numbers.0, vec!["705".to_owned(), "706".to_owned()]);
    assert_eq!(trains.0[0].direction.as_str(), "Пшемисль Головний-Київ-Пас.");
    assert_eq!(trains.0[0].delay, TrainDelayTime { hr: 0, min: 30 });

    assert_eq!(trains.0[1].numbers.0, vec!["749".to_owned(), "750".to_owned()]);
    assert_eq!(trains.0[1].direction.as_str(), "Київ-Пас.-Відень Головний");
    assert_eq!(trains.0[1].delay, TrainDelayTime { hr: 0, min: 11 });

    assert_eq!(trains.0[2].numbers.0, vec!["721".to_owned(), "722".to_owned()]);
    assert_eq!(trains.0[2].direction.as_str(), "Київ-Пас.-Харків-Пас.");
    assert_eq!(trains.0[2].delay, TrainDelayTime { hr: 0, min: 9 });
}

#[test]
fn test_entry_round_trip() {
    let entry = parse_entry("№705/706 Пшемисль Головний-Київ-Пас. (+0:30)").unwrap();
    assert_eq!(entry.numbers.0, vec!["705".to_owned(), "706".to_owned()]);
    assert_eq!(entry.direction.as_str(), "Пшемисль Головний-Київ-Пас.");
    assert_eq!(entry.delay, TrainDelayTime { hr: 0, min: 30 });
}

#[test]
fn test_entry_missing_space() {
    let r = parse_entry("№705/706");
    assert!(matches!(r, Err(UzParseError::GetTrainNumbers(_))));
}

#[test]
fn test_entry_missing_delay_separator() {
    let r = parse_entry("№705 Пшемисль-Київ +0:30");
    assert!(matches!(r, Err(UzParseError::GetTrainName(_))));
}

#[test]
fn test_delay_missing_colon() {
    let r = parse_delay_time("030");
    assert!(matches!(r, Err(UzParseError::SplitDelay(_))));
}

#[test]
fn test_delay_bad_hour() {
    let r = parse_delay_time("x:30");
    assert!(matches!(r, Err(UzParseError::ParseDelayHour(_))));
    let r2 = parse_delay_time("0:3y");
    assert!(matches!(r2, Err(UzParseError::ParseDelayHour(_))));
}

#[test]
fn test_delay_hour_overflows() {
    let r = parse_delay_time("99999999999999999999999999:30");
    assert!(matches!(r, Err(UzParseError::ParseDelayHour(_))));
}

#[test]
fn test_entry_with_empty_delay_part() {
    // An entry that ends right at the delay separator leaves an empty delay
    // token, reported as the missing-colon kind.
    let r = parse_entry("№705 Пшемисль-Київ (+");
    assert!(matches!(r, Err(UzParseError::SplitDelay(_))));
}

#[test]
fn test_delay_parses() {
    assert_eq!(parse_delay_time("1:05").unwrap(), TrainDelayTime { hr: 1, min: 5 });
}

#[test]
fn test_train_numbers_single() {
    let n = parse_train_numbers("№705");
    assert_eq!(n.0, vec!["705".to_owned()]);
}

#[test]
fn test_container_absent() {
    let page = "<html><body><ul class=\"other\"><li>№705 x (+0:30)</li></ul></body></html>";
    let r: Result<DelayedTrains, UzParseError> = page.parse();
    assert!(matches!(r, Err(UzParseError::DelayedTrainsContainer(_))));
}

#[test]
fn test_minimal_page() {
    let page = "<html><body><ul class=\"delayform-list\"><li>№705 Пшемисль-Київ (+0:30)</li></ul></body></html>";
    let trains: DelayedTrains = page.parse().expect("Error parsing minimal page");
    assert_eq!(trains.0.len(), 1);
    assert_eq!(trains.0[0].numbers.0, vec!["705".to_owned()]);
    assert_eq!(trains.0[0].delay, TrainDelayTime { hr: 0, min: 30 });
}

#[test]
fn test_malformed_entry_aborts_batch() {
    let page = "<html><body><ul class=\"delayform-list\"><li>№705 Пшемисль-Київ (+0:30)</li><li>nonsense</li></ul></body></html>";
    let r: Result<DelayedTrains, UzParseError> = page.parse();
    assert!(matches!(r, Err(UzParseError::GetTrainNumbers(_))));
}
