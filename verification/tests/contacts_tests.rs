use bmoney::contacts::Contact;
use bmoney::storage::Storage;

fn populate() -> Storage {
    let mut st = Storage::new();

    assert!(st.start_section("contacts".to_string()));

    let mut data = st.get_section_data("contacts".to_string());

    data.save::<Contact>(
        &mut st,
        Contact {
            uuid: "".to_string(),
            name: "contact 1".to_string(),
            city_location: "city A".to_string(),
        },
    );
    data.save::<Contact>(
        &mut st,
        Contact {
            uuid: "".to_string(),
            name: "contact 2".to_string(),
            city_location: "city B".to_string(),
        },
    );
    data.save::<Contact>(
        &mut st,
        Contact {
            uuid: "".to_string(),
            name: "contact 3".to_string(),
            city_location: "city C".to_string(),
        },
    );
    data.save::<Contact>(
        &mut st,
        Contact {
            uuid: "".to_string(),
            name: "contact 4".to_string(),
            city_location: "city D".to_string(),
        },
    );

    st
}

#[test]
fn get_contacts() {
    let mut st = populate();

    let contacts = Contact::get_contacts(&mut st);

    assert_eq!(contacts[0].name, "contact 4".to_string());
    assert_eq!(contacts[0].city_location, "city D".to_string());
    assert_eq!(contacts[1].name, "contact 3".to_string());
    assert_eq!(contacts[1].city_location, "city C".to_string());
    assert_eq!(contacts[2].name, "contact 2".to_string());
    assert_eq!(contacts[2].city_location, "city B".to_string());
    assert_eq!(contacts[3].name, "contact 1".to_string());
    assert_eq!(contacts[3].city_location, "city A".to_string());
}

#[test]
fn get_contact() {
    let mut st = populate();

    let contacts = Contact::get_contacts(&mut st);

    let uuid = contacts[0].uuid.clone();

    let contact = Contact::get_contact(&mut st, uuid);

    assert!(contact.is_ok());
    let contact = contact.unwrap();
    assert_eq!(contact.name, "contact 4".to_string());
    assert_eq!(contact.city_location, "city D".to_string());

    let contacte = Contact::get_contact(&mut st, "NOOOO".to_string());

    assert!(contacte.is_err());
}

#[test]
fn store_contact() {
    let mut st = populate();

    Contact::store_contact(
        &mut st,
        Contact {
            uuid: "".to_string(),
            name: "contact 5".to_string(),
            city_location: "city E".to_string(),
        },
    );

    let contacts = Contact::get_contacts(&mut st);

    assert_eq!(contacts[0].name, "contact 5".to_string());
    assert_eq!(contacts[0].city_location, "city E".to_string());
    assert_eq!(contacts[1].name, "contact 4".to_string());
    assert_eq!(contacts[1].city_location, "city D".to_string());
}

#[test]
fn remove_contact() {
    let mut st = populate();

    let contacts = Contact::get_contacts(&mut st);

    let uuid = contacts[0].uuid.clone();

    let contact = Contact::get_contact(&mut st, uuid.clone());

    assert!(contact.is_ok());

    Contact::remove_contact(&mut st, uuid.clone());

    let contacte = Contact::get_contact(&mut st, uuid.clone());

    assert!(contacte.is_err());
}
