use bmoney::accounts::Account;
use bmoney::contacts::Contact;
use bmoney::dates::Date;
use bmoney::import::{Import, PendingEntry};
use bmoney::storage::{Data, Storage, StoreError};
use bmoney::tags::Tag;
use bmoney::transactions::{StatusFilter, Transaction};
use bmoney::ui::{Accounts, Contacts, Tags, Transactions};
use chrono::Datelike;

fn today() -> Date {
    let now = chrono::Local::now().date_naive();
    Date { year: now.year() as u16, month: now.month() as u8, day: now.day() as u8 }
}

fn d(year: u16, month: u8, day: u8) -> Date {
    Date { year, month, day }
}

fn checking(name: &str, balance: i64) -> Account {
    Account {
        uuid: "".to_string(),
        name: name.to_string(),
        bank: "bank".to_string(),
        currency: "R$".to_string(),
        open_balance: balance,
        open_balance_date: Some(today()),
    }
}

#[test]
fn money_text() {
    let a = checking("Checking", 3500);
    assert_eq!(a.open_balance_formmated(), "R$ 35.00".to_string());
    assert_eq!(a.format_value(-12553), "R$ -125.53".to_string());
    assert_eq!(a.format_value(0), "R$ 0.00".to_string());
    assert_eq!(a.format_value(5), "R$ 0.05".to_string());
    assert_eq!(a.format_value(-5), "R$ -0.05".to_string());
    assert_eq!(a.format_value(120), "R$ 1.20".to_string());
}

#[test]
fn date_text() {
    let mut t = Transaction { deadline: Some(d(2018, 10, 1)), ..Default::default() };
    assert_eq!(t.paid_in_formmated(), "(payable)".to_string());
    t.paid_in = Some(d(2018, 10, 19));
    assert_eq!(t.paid_in_formmated(), "2018-10-19".to_string());
}

#[test]
fn short_id_projection() {
    let uuid = "0123456789abcdefghijklmnopqrstuvwxyz".to_string();
    // characters 0, 10 and 15, a hyphen, then 20, 25 and 35
    assert_eq!(Data::uuid_to_id(uuid), "0af-kpz".to_string());
}

#[test]
fn assigned_uuid_shape() {
    // the store's fresh identifiers must be 36 characters with hyphens at
    // the four standard positions; anything else would break short ids
    let mut st = Storage::new();
    st.start_section("tags".to_string());
    let uuid = Tag::store_tag(&mut st, Tag { uuid: "".to_string(), name: "x".to_string() });
    assert_eq!(uuid.len(), 36);
    let b = uuid.as_bytes();
    assert_eq!(b[8], b'-');
    assert_eq!(b[13], b'-');
    assert_eq!(b[18], b'-');
    assert_eq!(b[23], b'-');
    for (i, c) in uuid.chars().enumerate() {
        if i != 8 && i != 13 && i != 18 && i != 23 {
            assert!(c.is_ascii_hexdigit());
        }
    }
}

#[test]
fn created_at_stamped() {
    let t = Transaction::default();
    assert!(!t.created_at.is_empty());
}

#[test]
fn escaped_text_round_trip() {
    // quotes, backslashes and line breaks in a name survive save and read
    let mut st = Storage::new();
    let name = "a \"quoted\" name, a back\\slash and a\nbreak".to_string();
    Tag::store_tag(&mut st, Tag { uuid: "".to_string(), name: name.clone() });

    // even through the written text lines
    let texts = st.dump();
    assert_eq!(texts.len(), 3);
    let mut st2 = Storage::load(&texts);
    let tags = Tag::get_tags(&mut st2);
    assert_eq!(tags.len(), 1);
    assert_eq!(tags[0].name, name);
}

#[test]
fn dump_and_load_keep_lines() {
    let texts = vec![
        "::metadata::key some value".to_string(),
        "".to_string(),
        "::section::tags".to_string(),
        "00000000-0000-0000-0000-000000000000 {\"name\":\"kept\"}".to_string(),
        "    ".to_string(),
        "not a row at all".to_string(),
    ];
    let st = Storage::load(&texts);
    assert_eq!(st.dump(), texts);
}

#[test]
fn account_codec_round_trip() {
    let mut st = Storage::new();
    Account::store_account(&mut st, checking("Checking", -7));
    let accounts = Account::get_accounts(&mut st);
    assert_eq!(accounts.len(), 1);
    assert_eq!(accounts[0].name, "Checking".to_string());
    assert_eq!(accounts[0].bank, "bank".to_string());
    assert_eq!(accounts[0].currency, "R$".to_string());
    assert_eq!(accounts[0].open_balance, -7);
    assert_eq!(accounts[0].open_balance_date, Some(today()));
    assert_eq!(accounts[0].uuid.len(), 36);
}

#[test]
fn missing_field_is_refused() {
    let texts = vec![
        "::section::tags".to_string(),
        "00000000-0000-0000-0000-000000000000 {\"other\":\"x\"}".to_string(),
    ];
    let mut st = Storage::load(&texts);
    let mut data = st.get_section_data("tags".to_string());
    let r = data.next::<Tag>(&st);
    assert_eq!(r.unwrap_err(), StoreError::MissingField);
    let _ = &mut st;
}

#[test]
fn malformed_payload_is_refused() {
    let texts = vec![
        "::section::tags".to_string(),
        "00000000-0000-0000-0000-000000000000 not json at all".to_string(),
    ];
    let st = Storage::load(&texts);
    let mut data = st.get_section_data("tags".to_string());
    let r = data.next::<Tag>(&st);
    assert_eq!(r.unwrap_err(), StoreError::Malformed);
}

#[test]
fn no_more_rows_past_the_section() {
    let mut st = Storage::new();
    st.start_section("tags".to_string());
    let mut data = st.get_section_data("tags".to_string());
    let r = data.next::<Tag>(&st);
    assert_eq!(r.unwrap_err(), StoreError::NoMoreRows);
}

#[test]
fn not_found_lookup() {
    let mut st = Storage::new();
    st.start_section("tags".to_string());
    let r = Tag::get_tag(&mut st, "missing".to_string());
    assert_eq!(r.unwrap_err(), StoreError::NotFound);
}

#[test]
fn broken_transfer_link_is_refused() {
    let mut st = Storage::new();
    Account::store_account(&mut st, checking("A", 0));
    let accounts = Account::get_accounts(&mut st);
    let mut t = Transaction {
        description: "dangling".to_string(),
        value: 100,
        account: Some(accounts[0].clone()),
        deadline: Some(d(2018, 10, 1)),
        transfer: Some(Box::new(Transaction {
            uuid: "00000000-0000-0000-0000-00000000dead".to_string(),
            ..Default::default()
        })),
        ..Default::default()
    };
    st.start_section("transactions".to_string());
    let mut data = st.get_section_data("transactions".to_string());
    t.contact = None;
    data.save::<Transaction>(&mut st, t);
    let mut data2 = st.get_section_data("transactions".to_string());
    let r = data2.next::<Transaction>(&st);
    assert_eq!(r.unwrap_err(), StoreError::BrokenTransferLink);
}

#[test]
fn short_id_find() {
    let mut st = Storage::new();
    let uuid = Tag::store_tag(&mut st, Tag { uuid: "".to_string(), name: "by short".to_string() });
    let short = Data::uuid_to_id(uuid.clone());
    assert_eq!(short.len(), 7);
    let t = Tag::get_tag(&mut st, short);
    assert!(t.is_ok());
    assert_eq!(t.unwrap().uuid, uuid);
}

#[test]
fn transfer_symmetry() {
    let mut st = Storage::new();
    Account::store_account(&mut st, checking("A", 0));
    Account::store_account(&mut st, checking("B", 0));
    let accounts = Account::get_accounts(&mut st);
    Contact::store_contact(
        &mut st,
        Contact {
            uuid: "".to_string(),
            name: "c".to_string(),
            city_location: "x".to_string(),
        },
    );
    let contacts = Contact::get_contacts(&mut st);

    let mut a = Transaction {
        description: "out".to_string(),
        value: 2000,
        account: Some(accounts[1].clone()),
        contact: Some(contacts[0].clone()),
        deadline: Some(d(2018, 10, 1)),
        ..Default::default()
    };
    let mut b = a.duplicate();
    b.account = Some(accounts[0].clone());
    b.description = "in".to_string();
    b.value = 99; // deliberately unreconciled

    let ua = Transaction::store_transfer(&mut st, &mut a, &mut b);

    // the pair is reconciled in memory
    assert_eq!(a.value.abs(), b.value.abs());
    assert_eq!(b.value, -a.value);
    assert_eq!(a.deadline, b.deadline);
    assert_eq!(a.paid_in, b.paid_in);
    assert_eq!(a.uuid, ua);
    assert_eq!(a.transfer.as_ref().unwrap().uuid, b.uuid);
    assert_eq!(b.transfer.as_ref().unwrap().uuid, a.uuid);

    // and on disk: each side resolves to the other
    let sa = Transaction::get_transaction(&mut st, a.uuid.clone()).unwrap();
    assert_eq!(sa.transfer.as_ref().unwrap().uuid, b.uuid);
    assert_eq!(sa.value, 2000);
    let sb = Transaction::get_transaction(&mut st, b.uuid.clone()).unwrap();
    assert_eq!(sb.transfer.as_ref().unwrap().uuid, a.uuid);
    assert_eq!(sb.value, -2000);
}

#[test]
fn removing_transfer_removes_twin() {
    let mut st = Storage::new();
    Account::store_account(&mut st, checking("A", 0));
    Account::store_account(&mut st, checking("B", 0));
    let accounts = Account::get_accounts(&mut st);
    Contact::store_contact(
        &mut st,
        Contact {
            uuid: "".to_string(),
            name: "c".to_string(),
            city_location: "x".to_string(),
        },
    );
    let contacts = Contact::get_contacts(&mut st);

    let mut a = Transaction {
        description: "out".to_string(),
        value: 2000,
        account: Some(accounts[1].clone()),
        contact: Some(contacts[0].clone()),
        deadline: Some(d(2018, 10, 1)),
        ..Default::default()
    };
    let mut b = a.duplicate();
    b.account = Some(accounts[0].clone());
    Transaction::store_transfer(&mut st, &mut a, &mut b);

    Transaction::remove_transaction(&mut st, a.uuid.clone());
    assert!(Transaction::get_transaction(&mut st, a.uuid.clone()).is_err());
    assert!(Transaction::get_transaction(&mut st, b.uuid.clone()).is_err());
}

#[test]
fn make_transaction_or_transfer_dispatch() {
    let mut st = Storage::new();
    Account::store_account(&mut st, checking("A", 0));
    Account::store_account(&mut st, checking("B", 0));
    let accounts = Account::get_accounts(&mut st);

    // without a contact, the second account becomes the twin's home
    let mut t = Transaction {
        description: "move".to_string(),
        value: 1500,
        account: Some(accounts[0].clone()),
        deadline: Some(d(2018, 10, 1)),
        ..Default::default()
    };
    let uuid = Transaction::make_transaction_or_transfer(
        &mut st,
        &mut t,
        accounts[1].uuid.clone(),
    );
    let stored = Transaction::get_transaction(&mut st, uuid).unwrap();
    assert!(stored.transfer.is_some());
    let twin = Transaction::get_transaction(
        &mut st,
        stored.transfer.as_ref().unwrap().uuid.clone(),
    )
    .unwrap();
    assert_eq!(twin.value, -1500);
    assert_eq!(twin.account.as_ref().unwrap().uuid, accounts[1].uuid);
}

#[test]
fn index_lookup_after_import() {
    let mut st = Storage::new();
    Account::store_account(&mut st, checking("A", 0));
    let accounts = Account::get_accounts(&mut st);
    Contact::store_contact(
        &mut st,
        Contact {
            uuid: "".to_string(),
            name: "c".to_string(),
            city_location: "x".to_string(),
        },
    );
    let contacts = Contact::get_contacts(&mut st);

    let uuid = Transaction::store_transaction(
        &mut st,
        Transaction {
            description: "imported".to_string(),
            value: 700,
            account: Some(accounts[0].clone()),
            contact: Some(contacts[0].clone()),
            deadline: Some(d(2018, 10, 1)),
            ofx_memo: "memo".to_string(),
            ofx_fitid: "FIT123".to_string(),
            ..Default::default()
        },
    );

    Import::index(&mut st);

    // the cursor lands on the indexed row
    let mut data = st.get_section_data("transactions".to_string());
    assert!(data.find_by_index(
        &st,
        format!("fitid_{}", accounts[0].uuid),
        "FIT123".to_string(),
    ));
    let found = data.next::<Transaction>(&st).unwrap();
    assert_eq!(found.uuid, uuid);

    // a pending entry with the same bank id resolves to the stored row
    let pending = PendingEntry {
        posted_at: Some(d(2018, 10, 2)),
        amount: 700,
        fitid: "FIT123".to_string(),
        memo: "memo".to_string(),
    };
    let built = pending.build_transaction(&st, &accounts[0]);
    assert_eq!(built.uuid, uuid);

    // one with a new bank id builds a fresh record
    let pending2 = PendingEntry {
        posted_at: Some(d(2018, 10, 2)),
        amount: -300,
        fitid: "FIT999".to_string(),
        memo: "lunch".to_string(),
    };
    let built2 = pending2.build_transaction(&st, &accounts[0]);
    assert!(built2.uuid.is_empty());
    assert_eq!(built2.value, -300);
    assert_eq!(built2.description, "lunch".to_string());
    assert_eq!(built2.ofx_fitid, "FIT999".to_string());
    assert_eq!(built2.deadline, Some(d(2018, 10, 2)));
    assert_eq!(built2.paid_in, Some(d(2018, 10, 2)));
}

#[test]
fn listing_rows() {
    let mut st = Storage::new();
    Tag::store_tag(&mut st, Tag { uuid: "".to_string(), name: "tag 1".to_string() });
    let rows = Tags::list(&mut st);
    assert_eq!(rows.len(), 1);
    assert_eq!(rows[0][0], "tag 1".to_string());
    assert_eq!(rows[0][1].len(), 7);

    Account::store_account(&mut st, checking("Checking", 3500));
    let arows = Accounts::list(&mut st);
    assert_eq!(arows.len(), 1);
    assert_eq!(arows[0][0], "Checking".to_string());
    assert_eq!(arows[0][2], "R$ 35.00".to_string());

    Contact::store_contact(
        &mut st,
        Contact {
            uuid: "".to_string(),
            name: "Alice".to_string(),
            city_location: "town".to_string(),
        },
    );
    let crows = Contacts::list(&mut st);
    assert_eq!(crows.len(), 1);
    assert_eq!(crows[0][1], "town".to_string());
}

#[test]
fn monthly_listing_scenario() {
    // an account with opening balance zero, two contacts, one income and
    // one expense inside the month: the listing returns both in deadline
    // order and totals them by payment state
    let mut st = Storage::new();
    Account::store_account(&mut st, checking("Checking", 0));
    let accounts = Account::get_accounts(&mut st);
    Contact::store_contact(
        &mut st,
        Contact {
            uuid: "".to_string(),
            name: "Alice".to_string(),
            city_location: "town".to_string(),
        },
    );
    Contact::store_contact(
        &mut st,
        Contact {
            uuid: "".to_string(),
            name: "Bob".to_string(),
            city_location: "town".to_string(),
        },
    );
    let contacts = Contact::get_contacts(&mut st);
    assert_eq!(contacts[0].name, "Bob".to_string());

    Transaction::store_transaction(
        &mut st,
        Transaction {
            description: "income".to_string(),
            value: 1000,
            account: Some(accounts[0].clone()),
            contact: Some(contacts[1].clone()),
            deadline: Some(d(2018, 10, 1)),
            ..Default::default()
        },
    );
    Transaction::store_transaction(
        &mut st,
        Transaction {
            description: "groceries".to_string(),
            value: -12553,
            account: Some(accounts[0].clone()),
            contact: Some(contacts[0].clone()),
            deadline: Some(d(2018, 10, 1)),
            ..Default::default()
        },
    );

    let (list, totals) = Transaction::get_transactions(
        &mut st,
        accounts[0].clone(),
        d(2018, 10, 1),
        d(2018, 10, 31),
        StatusFilter::ALL,
        None,
        false,
    );
    assert_eq!(list.len(), 2);
    assert_eq!(totals[0].label, "Expenses(payable)".to_string());
    assert_eq!(totals[0].value, -12553);
    assert_eq!(totals[3].label, "Incomes(to receive)".to_string());
    assert_eq!(totals[3].value, 1000);

    let rows = Transactions::list(&list);
    assert_eq!(rows.len(), 2);
    assert_eq!(rows[0][1], "R$ -125.53".to_string());
    assert_eq!(rows[1][1], "R$ 10.00".to_string());
    assert_eq!(rows[0][3], "(payable)".to_string());
}

#[test]
fn tag_filter_narrows_listing() {
    let mut st = Storage::new();
    Account::store_account(&mut st, checking("A", 0));
    let accounts = Account::get_accounts(&mut st);
    Contact::store_contact(
        &mut st,
        Contact {
            uuid: "".to_string(),
            name: "c".to_string(),
            city_location: "x".to_string(),
        },
    );
    let contacts = Contact::get_contacts(&mut st);
    Tag::store_tag(&mut st, Tag { uuid: "".to_string(), name: "food".to_string() });
    let tags = Tag::get_tags(&mut st);

    Transaction::store_transaction(
        &mut st,
        Transaction {
            description: "tagged".to_string(),
            value: -100,
            account: Some(accounts[0].clone()),
            contact: Some(contacts[0].clone()),
            deadline: Some(d(2018, 10, 5)),
            tags: vec![tags[0].clone()],
            ..Default::default()
        },
    );
    Transaction::store_transaction(
        &mut st,
        Transaction {
            description: "plain".to_string(),
            value: -200,
            account: Some(accounts[0].clone()),
            contact: Some(contacts[0].clone()),
            deadline: Some(d(2018, 10, 6)),
            ..Default::default()
        },
    );

    let (list, _) = Transaction::get_transactions(
        &mut st,
        accounts[0].clone(),
        d(2018, 10, 1),
        d(2018, 10, 31),
        StatusFilter::ALL,
        Some(tags[0].clone()),
        false,
    );
    assert_eq!(list.len(), 1);
    assert_eq!(list[0].description, "tagged".to_string());
    assert_eq!(list[0].tags.len(), 1);
    assert_eq!(list[0].tags[0].name, "food".to_string());
}

#[test]
fn metadata_values_are_trimmed() {
    let texts = vec![
        "::metadata::empty    ".to_string(),
        "::metadata::padded   spaced value  ".to_string(),
    ];
    let st = Storage::load(&texts);
    assert_eq!(st.get_metadata().get("empty"), None);
    assert_eq!(st.get_metadata().get("padded"), Some("spaced value".to_string()));
}
