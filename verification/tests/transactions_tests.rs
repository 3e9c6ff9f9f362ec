use bmoney::accounts::Account;
use bmoney::contacts::Contact;
use bmoney::dates::Date;
use bmoney::storage::Storage;
use bmoney::transactions::{StatusFilter, Transaction};
use chrono::Datelike;

fn today() -> Date {
    let now = chrono::Local::now().date_naive();
    Date { year: now.year() as u16, month: now.month() as u8, day: now.day() as u8 }
}

fn d(year: u16, month: u8, day: u8) -> Date {
    Date { year, month, day }
}

fn populate() -> Storage {
    let mut st = Storage::new();

    Account::store_account(
        &mut st,
        Account {
            uuid: "".to_string(),
            name: "account AA".to_string(),
            bank: "bank A".to_string(),
            currency: "R$".to_string(),
            open_balance: 0,
            open_balance_date: Some(today()),
        },
    );
    Account::store_account(
        &mut st,
        Account {
            uuid: "".to_string(),
            name: "account BB".to_string(),
            bank: "bank B".to_string(),
            currency: "R$".to_string(),
            open_balance: 3500,
            open_balance_date: Some(today()),
        },
    );

    let accounts = Account::get_accounts(&mut st);

    Contact::store_contact(
        &mut st,
        Contact {
            uuid: "".to_string(),
            name: "contact 1".to_string(),
            city_location: "city A".to_string(),
        },
    );
    Contact::store_contact(
        &mut st,
        Contact {
            uuid: "".to_string(),
            name: "contact 2".to_string(),
            city_location: "city B".to_string(),
        },
    );

    let contacts = Contact::get_contacts(&mut st);

    assert!(st.start_section("transactions".to_string()));

    let mut data = st.get_section_data("transactions".to_string());

    data.save::<Transaction>(
        &mut st,
        Transaction {
            description: "transaction 1".to_string(),
            value: 1000,
            account: Some(accounts[0].clone()),
            contact: Some(contacts[0].clone()),
            deadline: Some(d(2018, 10, 1)),
            ..Default::default()
        },
    );
    data.save::<Transaction>(
        &mut st,
        Transaction {
            description: "transaction 2".to_string(),
            value: -12553,
            account: Some(accounts[0].clone()),
            contact: Some(contacts[1].clone()),
            deadline: Some(d(2018, 10, 1)),
            ..Default::default()
        },
    );
    data.save::<Transaction>(
        &mut st,
        Transaction {
            description: "transaction 3".to_string(),
            value: 2558,
            account: Some(accounts[1].clone()),
            contact: Some(contacts[1].clone()),
            deadline: Some(d(2018, 10, 15)),
            ..Default::default()
        },
    );
    data.save::<Transaction>(
        &mut st,
        Transaction {
            description: "transaction 4".to_string(),
            value: 15902,
            account: Some(accounts[0].clone()),
            contact: Some(contacts[0].clone()),
            deadline: Some(d(2018, 8, 23)),
            ..Default::default()
        },
    );

    st
}

#[test]
fn get_transactions() {
    let mut st = populate();

    let accounts = Account::get_accounts(&mut st);

    assert_eq!(accounts[0].name, "account BB".to_string());

    let (transactions, _total) = Transaction::get_transactions(
        &mut st,
        accounts[0].clone(),
        d(2018, 10, 1),
        d(2018, 10, 31),
        StatusFilter::ALL,
        None,
        false,
    );

    assert_eq!(transactions.len(), 2);
    assert_eq!(transactions[0].description, "transaction 2".to_string());
    assert_eq!(transactions[1].description, "transaction 1".to_string());
}

#[test]
fn get_transactions_simple() {
    let mut st = populate();

    let accounts = Account::get_accounts(&mut st);

    assert_eq!(accounts[0].name, "account BB".to_string());

    let transactions = Transaction::get_transactions_simple(&mut st, accounts[0].clone());

    assert_eq!(transactions.len(), 3);
    assert_eq!(transactions[0].description, "transaction 4".to_string());
    assert_eq!(transactions[1].description, "transaction 2".to_string());
    assert_eq!(transactions[2].description, "transaction 1".to_string());
}

#[test]
fn get_transactions_totals() {
    let mut st = populate();

    let accounts = Account::get_accounts(&mut st);

    assert_eq!(accounts[0].name, "account BB".to_string());
    assert_eq!(accounts[1].name, "account AA".to_string());

    let (transactions_a, totals_a) = Transaction::get_transactions(
        &mut st,
        accounts[0].clone(),
        d(2018, 10, 1),
        d(2018, 10, 31),
        StatusFilter::ALL,
        None,
        false,
    );

    assert_eq!(transactions_a.len(), 2);

    assert_eq!(totals_a.len(), 9);
    assert_eq!(totals_a[0].label, "Expenses(payable)".to_string());
    assert_eq!(totals_a[0].value, -12553);
    assert_eq!(totals_a[1].label, "Expenses".to_string());
    assert_eq!(totals_a[1].value, 0);
    assert_eq!(totals_a[3].label, "Incomes(to receive)".to_string());
    assert_eq!(totals_a[3].value, 1000);
    assert_eq!(totals_a[4].label, "Incomes".to_string());
    assert_eq!(totals_a[4].value, 0);
    assert_eq!(totals_a[6].label, "Previous balance".to_string());
    assert_eq!(totals_a[6].value, 3500);
    assert_eq!(totals_a[7].label, "Expected balance".to_string());
    assert_eq!(totals_a[7].value, 7849);
    assert_eq!(totals_a[8].label, "Total balance".to_string());
    assert_eq!(totals_a[8].value, 3500);

    let mut paid = transactions_a[0].duplicate();
    paid.paid_in = Some(d(2018, 10, 25));
    Transaction::store_transaction(&mut st, paid);

    let (transactions_b, totals_b) = Transaction::get_transactions(
        &mut st,
        accounts[0].clone(),
        d(2018, 10, 1),
        d(2018, 10, 31),
        StatusFilter::ALL,
        None,
        false,
    );

    assert_eq!(transactions_b.len(), 2);

    assert_eq!(totals_b.len(), 9);
    assert_eq!(totals_b[0].label, "Expenses(payable)".to_string());
    assert_eq!(totals_b[0].value, 0);
    assert_eq!(totals_b[1].label, "Expenses".to_string());
    assert_eq!(totals_b[1].value, -12553);
    assert_eq!(totals_b[3].label, "Incomes(to receive)".to_string());
    assert_eq!(totals_b[3].value, 1000);
    assert_eq!(totals_b[4].label, "Incomes".to_string());
    assert_eq!(totals_b[5].value, 0);
    assert_eq!(totals_b[6].label, "Previous balance".to_string());
    assert_eq!(totals_b[6].value, 3500);
    assert_eq!(totals_b[7].label, "Expected balance".to_string());
    assert_eq!(totals_b[7].value, 7849);
    assert_eq!(totals_b[8].label, "Total balance".to_string());
    assert_eq!(totals_b[8].value, -9053);

    let (transactions_c, totals_c) = Transaction::get_transactions(
        &mut st,
        accounts[1].clone(),
        d(2018, 10, 1),
        d(2018, 10, 31),
        StatusFilter::ALL,
        None,
        false,
    );

    assert_eq!(transactions_c.len(), 1);

    assert_eq!(totals_c.len(), 9);
    assert_eq!(totals_c[0].label, "Expenses(payable)".to_string());
    assert_eq!(totals_c[0].value, 0);
    assert_eq!(totals_c[1].label, "Expenses".to_string());
    assert_eq!(totals_c[1].value, 0);
    assert_eq!(totals_c[3].label, "Incomes(to receive)".to_string());
    assert_eq!(totals_c[3].value, 2558);
    assert_eq!(totals_c[4].label, "Incomes".to_string());
    assert_eq!(totals_c[5].value, 0);
    assert_eq!(totals_c[6].label, "Previous balance".to_string());
    assert_eq!(totals_c[6].value, 0);
    assert_eq!(totals_c[7].label, "Expected balance".to_string());
    assert_eq!(totals_c[7].value, 2558);
    assert_eq!(totals_c[8].label, "Total balance".to_string());
    assert_eq!(totals_c[8].value, 0);
}

#[test]
fn transactions_transfers() {
    let mut st = populate();

    let accounts = Account::get_accounts(&mut st);

    assert_eq!(accounts[0].name, "account BB".to_string());
    assert_eq!(accounts[1].name, "account AA".to_string());

    let contacts = Contact::get_contacts(&mut st);

    assert_eq!(contacts[0].name, "contact 2".to_string());

    let mut from = Transaction {
        description: "transaction from".to_string(),
        value: 2000,
        account: Some(accounts[0].clone()),
        contact: Some(contacts[0].clone()),
        deadline: Some(d(2018, 10, 1)),
        ..Default::default()
    };

    let mut to = from.duplicate();
    to.account = Some(accounts[1].clone());
    to.description = "transaction to".to_string();

    Transaction::store_transfer(&mut st, &mut from, &mut to);

    let (transactions_a, totals_a) = Transaction::get_transactions(
        &mut st,
        accounts[0].clone(),
        d(2018, 10, 1),
        d(2018, 10, 31),
        StatusFilter::ALL,
        None,
        false,
    );

    assert_eq!(transactions_a.len(), 3);

    assert_eq!(totals_a.len(), 9);
    assert_eq!(totals_a[3].label, "Incomes(to receive)".to_string());
    assert_eq!(totals_a[3].value, 3000);

    let (transactions_b, totals_b) = Transaction::get_transactions(
        &mut st,
        accounts[1].clone(),
        d(2018, 10, 1),
        d(2018, 10, 31),
        StatusFilter::ALL,
        None,
        false,
    );

    assert_eq!(transactions_b.len(), 2);

    assert_eq!(totals_b.len(), 9);
    assert_eq!(totals_b[0].label, "Expenses(payable)".to_string());
    assert_eq!(totals_b[0].value, -2000);

    // Paying the transfer
    let paid = transactions_a[0].duplicate();
    assert_eq!(paid.description, "transaction from".to_string());
    let mut paid_side = paid.duplicate();
    paid_side.paid_in = Some(d(2018, 10, 19));
    let mut other_side = *paid.transfer.unwrap();
    Transaction::store_transfer(&mut st, &mut paid_side, &mut other_side);

    let (transactions_c, totals_c) = Transaction::get_transactions(
        &mut st,
        accounts[0].clone(),
        d(2018, 10, 1),
        d(2018, 10, 31),
        StatusFilter::ALL,
        None,
        false,
    );

    assert_eq!(transactions_c.len(), 3);

    assert_eq!(totals_c.len(), 9);
    assert_eq!(totals_c[3].label, "Incomes(to receive)".to_string());
    assert_eq!(totals_c[3].value, 1000);
    assert_eq!(totals_c[5].label, "Transfers in".to_string());
    assert_eq!(totals_c[5].value, 2000);

    let (transactions_d, totals_d) = Transaction::get_transactions(
        &mut st,
        accounts[1].clone(),
        d(2018, 10, 1),
        d(2018, 10, 31),
        StatusFilter::ALL,
        None,
        false,
    );

    assert_eq!(transactions_d.len(), 2);

    assert_eq!(totals_d.len(), 9);
    assert_eq!(totals_d[0].label, "Expenses(payable)".to_string());
    assert_eq!(totals_d[0].value, 0);
    assert_eq!(totals_d[2].label, "Transfers out".to_string());
    assert_eq!(totals_d[2].value, -2000);
}

#[test]
fn get_transactions_status() {
    let mut st = populate();

    let accounts = Account::get_accounts(&mut st);

    assert_eq!(accounts[0].name, "account BB".to_string());

    let (transactions_tmp, _totals) = Transaction::get_transactions(
        &mut st,
        accounts[0].clone(),
        d(2018, 10, 1),
        d(2018, 10, 1),
        StatusFilter::ALL,
        None,
        false,
    );

    assert_eq!(transactions_tmp.len(), 2);

    let mut paid = transactions_tmp[0].duplicate();
    paid.paid_in = Some(d(2018, 10, 25));
    Transaction::store_transaction(&mut st, paid);

    let (transactions_a, totals_a) = Transaction::get_transactions(
        &mut st,
        accounts[0].clone(),
        d(2018, 10, 1),
        d(2018, 10, 31),
        StatusFilter::ALL,
        None,
        false,
    );

    assert_eq!(transactions_a.len(), 2);

    assert_eq!(totals_a.len(), 9);
    assert_eq!(totals_a[0].label, "Expenses(payable)".to_string());
    assert_eq!(totals_a[0].value, 0);
    assert_eq!(totals_a[1].label, "Expenses".to_string());
    assert_eq!(totals_a[1].value, -12553);
    assert_eq!(totals_a[3].label, "Incomes(to receive)".to_string());
    assert_eq!(totals_a[3].value, 1000);
    assert_eq!(totals_a[4].label, "Incomes".to_string());
    assert_eq!(totals_a[4].value, 0);
    assert_eq!(totals_a[6].label, "Previous balance".to_string());
    assert_eq!(totals_a[6].value, 3500);
    assert_eq!(totals_a[7].label, "Expected balance".to_string());
    assert_eq!(totals_a[7].value, 7849);
    assert_eq!(totals_a[8].label, "Total balance".to_string());
    assert_eq!(totals_a[8].value, -9053);

    let (transactions_b, totals_b) = Transaction::get_transactions(
        &mut st,
        accounts[0].clone(),
        d(2018, 10, 1),
        d(2018, 10, 31),
        StatusFilter::PAID,
        None,
        false,
    );

    assert_eq!(transactions_b.len(), 1);

    assert_eq!(totals_b.len(), 9);
    assert_eq!(totals_b[0].label, "Expenses(payable)".to_string());
    assert_eq!(totals_b[0].value, 0);
    assert_eq!(totals_b[1].label, "Expenses".to_string());
    assert_eq!(totals_b[1].value, -12553);
    assert_eq!(totals_b[3].label, "Incomes(to receive)".to_string());
    assert_eq!(totals_b[3].value, 0);
    assert_eq!(totals_b[4].label, "Incomes".to_string());
    assert_eq!(totals_b[4].value, 0);
    assert_eq!(totals_b[6].label, "Previous balance".to_string());
    assert_eq!(totals_b[6].value, 3500);
    assert_eq!(totals_b[7].label, "Expected balance".to_string());
    assert_eq!(totals_b[7].value, -9053);
    assert_eq!(totals_b[8].label, "Total balance".to_string());
    assert_eq!(totals_b[8].value, -9053);

    let (transactions_c, totals_c) = Transaction::get_transactions(
        &mut st,
        accounts[0].clone(),
        d(2018, 10, 1),
        d(2018, 10, 31),
        StatusFilter::FORPAY,
        None,
        false,
    );

    assert_eq!(transactions_c.len(), 1);

    assert_eq!(totals_c.len(), 9);
    assert_eq!(totals_c[0].label, "Expenses(payable)".to_string());
    assert_eq!(totals_c[0].value, 0);
    assert_eq!(totals_c[1].label, "Expenses".to_string());
    assert_eq!(totals_c[1].value, 0);
    assert_eq!(totals_c[3].label, "Incomes(to receive)".to_string());
    assert_eq!(totals_c[3].value, 1000);
    assert_eq!(totals_c[4].label, "Incomes".to_string());
    assert_eq!(totals_c[4].value, 0);
    assert_eq!(totals_c[6].label, "Previous balance".to_string());
    assert_eq!(totals_c[6].value, 3500);
    assert_eq!(totals_c[7].label, "Expected balance".to_string());
    assert_eq!(totals_c[7].value, 20402);
    assert_eq!(totals_c[8].label, "Total balance".to_string());
    assert_eq!(totals_c[8].value, 3500);
}

#[test]
fn get_transaction() {
    let mut st = populate();

    let accounts = Account::get_accounts(&mut st);

    assert_eq!(accounts[0].name, "account BB".to_string());

    let (transactions, _total) = Transaction::get_transactions(
        &mut st,
        accounts[0].clone(),
        d(2018, 10, 1),
        d(2018, 10, 31),
        StatusFilter::ALL,
        None,
        false,
    );

    let uuid = transactions[0].uuid.clone();

    let transaction = Transaction::get_transaction(&mut st, uuid);

    assert!(transaction.is_ok());
    assert_eq!(transaction.unwrap().description, "transaction 2".to_string());

    let transactione = Transaction::get_transaction(&mut st, "NOOOO".to_string());

    assert!(transactione.is_err());
}

#[test]
fn store_transaction() {
    let mut st = populate();

    let accounts = Account::get_accounts(&mut st);

    assert_eq!(accounts[0].name, "account BB".to_string());

    let contacts = Contact::get_contacts(&mut st);

    assert_eq!(contacts[0].name, "contact 2".to_string());

    Transaction::store_transaction(
        &mut st,
        Transaction {
            description: "transaction 5".to_string(),
            value: 2000,
            account: Some(accounts[0].clone()),
            contact: Some(contacts[0].clone()),
            deadline: Some(d(2018, 10, 1)),
            ..Default::default()
        },
    );

    let (transactions, _total) = Transaction::get_transactions(
        &mut st,
        accounts[0].clone(),
        d(2018, 10, 1),
        d(2018, 10, 31),
        StatusFilter::ALL,
        None,
        false,
    );

    assert_eq!(transactions[0].description, "transaction 5".to_string());
    assert_eq!(transactions[1].description, "transaction 2".to_string());
    assert_eq!(transactions[2].description, "transaction 1".to_string());
}

#[test]
fn remove_transaction() {
    let mut st = populate();

    let accounts = Account::get_accounts(&mut st);

    assert_eq!(accounts[0].name, "account BB".to_string());

    let (transactions, _total) = Transaction::get_transactions(
        &mut st,
        accounts[0].clone(),
        d(2018, 10, 1),
        d(2018, 10, 31),
        StatusFilter::ALL,
        None,
        false,
    );

    let uuid = transactions[0].uuid.clone();

    let transaction = Transaction::get_transaction(&mut st, uuid.clone());

    assert!(transaction.is_ok());

    Transaction::remove_transaction(&mut st, uuid.clone());

    let transactione = Transaction::get_transaction(&mut st, uuid.clone());

    assert!(transactione.is_err());
}
