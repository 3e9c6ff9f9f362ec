use bmoney::accounts::Account;
use bmoney::dates::Date;
use bmoney::forecasts::Forecast;
use bmoney::storage::Storage;
use bmoney::tags::Tag;
use bmoney::transactions::Transaction;
use chrono::Datelike;

fn today() -> Date {
    let now = chrono::Local::now().date_naive();
    Date { year: now.year() as u16, month: now.month() as u8, day: now.day() as u8 }
}

#[test]
fn forecast_codec_round_trip() {
    let mut st = Storage::new();
    Account::store_account(
        &mut st,
        Account {
            uuid: "".to_string(),
            name: "account A".to_string(),
            bank: "bank".to_string(),
            currency: "R$".to_string(),
            open_balance: 0,
            open_balance_date: Some(today()),
        },
    );
    let accounts = Account::get_accounts(&mut st);
    Tag::store_tag(&mut st, Tag { uuid: "".to_string(), name: "food".to_string() });
    let tags = Tag::get_tags(&mut st);

    Forecast::store_forecast(
        &mut st,
        Forecast {
            uuid: "".to_string(),
            account: Some(accounts[0].clone()),
            tag: Some(tags[0].clone()),
            value: -50000,
        },
    );

    let forecasts = Forecast::get_forecasts(&mut st);
    assert_eq!(forecasts.len(), 1);
    assert_eq!(forecasts[0].value, -50000);
    assert_eq!(forecasts[0].tag.as_ref().unwrap().name, "food".to_string());
    assert_eq!(forecasts[0].account.as_ref().unwrap().name, "account A".to_string());

    let uuid = forecasts[0].uuid.clone();
    let one = Forecast::get_forecast(&mut st, uuid.clone());
    assert!(one.is_ok());

    Forecast::remove_forecast(&mut st, uuid.clone());
    assert!(Forecast::get_forecast(&mut st, uuid).is_err());
}

#[test]
fn remaining_transactions_totals() {
    let mut st = Storage::new();
    Account::store_account(
        &mut st,
        Account {
            uuid: "".to_string(),
            name: "account A".to_string(),
            bank: "bank".to_string(),
            currency: "R$".to_string(),
            open_balance: 0,
            open_balance_date: Some(today()),
        },
    );
    let accounts = Account::get_accounts(&mut st);
    Tag::store_tag(&mut st, Tag { uuid: "".to_string(), name: "food".to_string() });
    let tags = Tag::get_tags(&mut st);

    Forecast::store_forecast(
        &mut st,
        Forecast {
            uuid: "".to_string(),
            account: Some(accounts[0].clone()),
            tag: Some(tags[0].clone()),
            value: -50000,
        },
    );

    // two tagged expenses have attained -150.00 of the -500.00 target
    let spent = vec![
        Transaction {
            description: "one".to_string(),
            value: -10000,
            tags: vec![tags[0].clone()],
            ..Default::default()
        },
        Transaction {
            description: "two".to_string(),
            value: -5000,
            tags: vec![tags[0].clone()],
            ..Default::default()
        },
        Transaction { description: "untagged".to_string(), value: -77700, ..Default::default() },
    ];

    let end = Date { year: 2018, month: 10, day: 31 };
    let remaining = Forecast::remaining_transactions(&mut st, &spent, end);

    assert_eq!(remaining.len(), 1);
    assert_eq!(remaining[0].value, -35000);
    assert_eq!(remaining[0].deadline, Some(end));
    assert_eq!(remaining[0].uuid, "00000000-0000-0000-0000-000000000000".to_string());
    assert_eq!(remaining[0].contact.as_ref().unwrap().name, "Remaining".to_string());
    assert_eq!(
        remaining[0].description,
        "food: R$ -150.00 of R$ -500.00 (30%)".to_string()
    );

    // once the target is crossed, nothing remains
    let over = vec![Transaction {
        description: "big".to_string(),
        value: -60000,
        tags: vec![tags[0].clone()],
        ..Default::default()
    }];
    let none_left = Forecast::remaining_transactions(&mut st, &over, end);
    assert_eq!(none_left[0].value, 0);
}
