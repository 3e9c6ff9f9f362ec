use bmoney::contacts::Contact;
use bmoney::rules::Rule;
use bmoney::storage::Storage;
use bmoney::transactions::Transaction;

fn populate() -> Storage {
    let mut st = Storage::new();

    Contact::store_contact(
        &mut st,
        Contact {
            uuid: "".to_string(),
            name: "contact 1".to_string(),
            city_location: "city A".to_string(),
        },
    );
    Contact::store_contact(
        &mut st,
        Contact {
            uuid: "".to_string(),
            name: "contact 2".to_string(),
            city_location: "city B".to_string(),
        },
    );

    let contacts = Contact::get_contacts(&mut st);

    assert!(st.start_section("rules".to_string()));

    let mut data = st.get_section_data("rules".to_string());

    data.save::<Rule>(
        &mut st,
        Rule {
            uuid: "".to_string(),
            description: "rule 1".to_string(),
            term: "term A".to_string(),
            expected_value: None,
            contact: Some(contacts[0].clone()),
            tags: vec![],
        },
    );
    data.save::<Rule>(
        &mut st,
        Rule {
            uuid: "".to_string(),
            description: "rule 2".to_string(),
            term: "term B".to_string(),
            expected_value: None,
            contact: Some(contacts[1].clone()),
            tags: vec![],
        },
    );
    data.save::<Rule>(
        &mut st,
        Rule {
            uuid: "".to_string(),
            description: "rule 3".to_string(),
            term: "term D".to_string(),
            expected_value: None,
            contact: Some(contacts[1].clone()),
            tags: vec![],
        },
    );
    data.save::<Rule>(
        &mut st,
        Rule {
            uuid: "".to_string(),
            description: "rule 4".to_string(),
            term: "term B".to_string(),
            expected_value: None,
            contact: None,
            tags: vec![],
        },
    );

    st
}

#[test]
fn get_rules() {
    let mut st = populate();

    let rules = Rule::get_rules(&mut st);

    assert_eq!(rules[0].description, "rule 4".to_string());
    assert_eq!(rules[0].term, "term B".to_string());
    assert!(!rules[0].contact.is_some());
    assert_eq!(rules[0].tags.len(), 0);

    assert_eq!(rules[3].description, "rule 1".to_string());
    assert_eq!(rules[3].term, "term A".to_string());
    assert!(rules[3].contact.is_some());
    assert_eq!(rules[3].tags.len(), 0);
}

#[test]
fn apply_rules() {
    let mut st = populate();

    let mut tr = Transaction {
        description: "more term b and other".to_string(),
        value: 15000,
        ..Default::default()
    };

    assert!(Rule::apply_rules(&mut st, &mut tr));

    assert_eq!(tr.description, "rule 4".to_string());

    let mut tr2 = Transaction {
        description: "more term not found and other".to_string(),
        value: 1000,
        ..Default::default()
    };

    assert!(!Rule::apply_rules(&mut st, &mut tr2));
}

#[test]
fn expected_value_gates_a_rule() {
    let mut st = Storage::new();
    st.start_section("rules".to_string());
    let mut data = st.get_section_data("rules".to_string());
    data.save::<Rule>(
        &mut st,
        Rule {
            uuid: "".to_string(),
            description: "exact".to_string(),
            term: "coffee".to_string(),
            expected_value: Some(-450),
            contact: None,
            tags: vec![],
        },
    );

    let mut wrong_amount = Transaction {
        description: "Coffee beans".to_string(),
        value: -500,
        ..Default::default()
    };
    assert!(!Rule::apply_rules(&mut st, &mut wrong_amount));

    let mut right_amount = Transaction {
        description: "Coffee beans".to_string(),
        value: -450,
        ..Default::default()
    };
    assert!(Rule::apply_rules(&mut st, &mut right_amount));
    assert_eq!(right_amount.description, "exact".to_string());
}
