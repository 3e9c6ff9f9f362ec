use bmoney::accounts::Account;
use bmoney::dates::Date;
use bmoney::storage::Storage;
use chrono::Datelike;

fn today() -> Date {
    let now = chrono::Local::now().date_naive();
    Date { year: now.year() as u16, month: now.month() as u8, day: now.day() as u8 }
}

fn populate() -> Storage {
    let mut st = Storage::new();

    assert!(st.start_section("accounts".to_string()));

    let mut data = st.get_section_data("accounts".to_string());

    data.save::<Account>(
        &mut st,
        Account {
            uuid: "".to_string(),
            name: "account 1".to_string(),
            bank: "bank A".to_string(),
            currency: "R$".to_string(),
            open_balance: 0,
            open_balance_date: Some(today()),
        },
    );
    data.save::<Account>(
        &mut st,
        Account {
            uuid: "".to_string(),
            name: "account 2".to_string(),
            bank: "bank B".to_string(),
            currency: "$".to_string(),
            open_balance: 10000,
            open_balance_date: Some(today()),
        },
    );
    data.save::<Account>(
        &mut st,
        Account {
            uuid: "".to_string(),
            name: "account 3".to_string(),
            bank: "bank D".to_string(),
            currency: "$".to_string(),
            open_balance: -1000,
            open_balance_date: Some(today()),
        },
    );
    data.save::<Account>(
        &mut st,
        Account {
            uuid: "".to_string(),
            name: "account 4".to_string(),
            bank: "bank B".to_string(),
            currency: "R$".to_string(),
            open_balance: 3500,
            open_balance_date: Some(today()),
        },
    );

    st
}

#[test]
fn get_accounts() {
    let mut st = populate();

    let accounts = Account::get_accounts(&mut st);

    assert_eq!(accounts[0].name, "account 4".to_string());
    assert_eq!(accounts[0].bank, "bank B".to_string());
    assert_eq!(accounts[0].currency, "R$".to_string());
    assert_eq!(accounts[0].open_balance, 3500);
    assert_eq!(accounts[0].open_balance_date, Some(today()));

    assert_eq!(accounts[1].name, "account 3".to_string());
    assert_eq!(accounts[1].bank, "bank D".to_string());
    assert_eq!(accounts[1].currency, "$".to_string());
    assert_eq!(accounts[1].open_balance, -1000);
    assert_eq!(accounts[1].open_balance_date, Some(today()));

    assert_eq!(accounts[2].name, "account 2".to_string());
    assert_eq!(accounts[2].bank, "bank B".to_string());
    assert_eq!(accounts[2].currency, "$".to_string());
    assert_eq!(accounts[2].open_balance, 10000);
    assert_eq!(accounts[2].open_balance_date, Some(today()));

    assert_eq!(accounts[3].name, "account 1".to_string());
    assert_eq!(accounts[3].bank, "bank A".to_string());
    assert_eq!(accounts[3].currency, "R$".to_string());
    assert_eq!(accounts[3].open_balance, 0);
    assert_eq!(accounts[3].open_balance_date, Some(today()));
}

#[test]
fn get_account() {
    let mut st = populate();

    let accounts = Account::get_accounts(&mut st);

    let uuid = accounts[0].uuid.clone();

    let account = Account::get_account(&mut st, uuid);

    assert!(account.is_ok());
    let account = account.unwrap();
    assert_eq!(account.name, "account 4".to_string());
    assert_eq!(account.bank, "bank B".to_string());
    assert_eq!(account.currency, "R$".to_string());
    assert_eq!(account.open_balance, 3500);
    assert_eq!(account.open_balance_date, Some(today()));

    let accounte = Account::get_account(&mut st, "NOOOO".to_string());

    assert!(accounte.is_err());
}

#[test]
fn store_account() {
    let mut st = populate();

    Account::store_account(
        &mut st,
        Account {
            uuid: "".to_string(),
            name: "account 5".to_string(),
            bank: "bank A".to_string(),
            currency: "R$".to_string(),
            open_balance: 0,
            open_balance_date: Some(today()),
        },
    );

    let accounts = Account::get_accounts(&mut st);

    assert_eq!(accounts[0].name, "account 5".to_string());
    assert_eq!(accounts[0].bank, "bank A".to_string());
    assert_eq!(accounts[0].currency, "R$".to_string());
    assert_eq!(accounts[0].open_balance, 0);
    assert_eq!(accounts[0].open_balance_date, Some(today()));

    assert_eq!(accounts[1].name, "account 4".to_string());
    assert_eq!(accounts[1].bank, "bank B".to_string());
    assert_eq!(accounts[1].currency, "R$".to_string());
    assert_eq!(accounts[1].open_balance, 3500);
    assert_eq!(accounts[1].open_balance_date, Some(today()));
}

#[test]
fn remove_account() {
    let mut st = populate();

    let accounts = Account::get_accounts(&mut st);

    let uuid = accounts[0].uuid.clone();

    let account = Account::get_account(&mut st, uuid.clone());

    assert!(account.is_ok());

    Account::remove_account(&mut st, uuid.clone());

    let accounte = Account::get_account(&mut st, uuid.clone());

    assert!(accounte.is_err());
}
