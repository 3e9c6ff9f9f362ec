use bmoney::storage::Storage;
use bmoney::tags::Tag;

#[test]
fn check_section() {
    let st = Storage::new();
    assert!(!st.check_section("accounts"));
}

#[test]
fn start_section() {
    let mut st = Storage::new();
    assert!(st.start_section("accounts".to_string()));
}

#[test]
fn get_section_data() {
    let mut st = Storage::new();

    assert!(st.start_section("accounts".to_string()));

    let data = st.get_section_data("accounts".to_string());

    assert_eq!(data.section, "accounts".to_string());
    assert_eq!(data.last_position, 0);
    assert_eq!(data.need_find_section, true);
    assert_eq!(data.can_recursive, true);
}

#[test]
fn save() {
    let mut st = Storage::new();

    assert!(st.start_section("accounts".to_string()));

    let mut data = st.get_section_data("accounts".to_string());

    let test = Tag { uuid: "".to_string(), name: "TESTTT!".to_string() };

    let new_uuid = data.save::<Tag>(&mut st, test);

    // Valid uuid
    assert_eq!(new_uuid.len(), 36);

    let test2 = Tag { uuid: new_uuid.clone(), name: "TEST UPDATE!".to_string() };

    let updated_uuid = data.save::<Tag>(&mut st, test2);

    // If is the same uuid
    assert_eq!(new_uuid, updated_uuid);
}

#[test]
fn next() {
    let mut st = Storage::new();

    assert!(st.start_section("accounts".to_string()));

    let mut data = st.get_section_data("accounts".to_string());

    data.save::<Tag>(&mut st, Tag { uuid: "".to_string(), name: "FIND ME!".to_string() });

    assert!(data.next::<Tag>(&st).is_ok());

    // Load again, through the written lines
    let texts = st.dump();
    let st2 = Storage::load(&texts);

    let mut data2 = st2.get_section_data("accounts".to_string());

    let row = data2.next::<Tag>(&st2);

    assert!(row.is_ok());

    let row = row.unwrap();
    assert_eq!(row.uuid.len(), 36);
    assert_eq!(row.name, "FIND ME!".to_string());
}

#[test]
fn find_by_id() {
    let mut st = Storage::new();

    assert!(st.start_section("accounts".to_string()));

    let mut data = st.get_section_data("accounts".to_string());

    data.save::<Tag>(&mut st, Tag { uuid: "".to_string(), name: "FIND ME!".to_string() });
    let new_uuid = data.save::<Tag>(
        &mut st,
        Tag { uuid: "".to_string(), name: "FIND ME2!".to_string() },
    );
    data.save::<Tag>(&mut st, Tag { uuid: "".to_string(), name: "FIND ME3!".to_string() });

    // Valid uuid
    assert_eq!(new_uuid.len(), 36);

    // If is finded
    assert!(data.find_by_id(&st, new_uuid.as_str()));

    let row = data.next::<Tag>(&st);

    assert!(row.is_ok());

    let row = row.unwrap();
    assert_eq!(row.uuid, new_uuid);
    assert_eq!(row.name, "FIND ME2!".to_string());
}

#[test]
fn remove_by_id() {
    let mut st = Storage::new();

    assert!(st.start_section("accounts".to_string()));

    let mut data = st.get_section_data("accounts".to_string());

    data.save::<Tag>(&mut st, Tag { uuid: "".to_string(), name: "FIND ME!".to_string() });
    let new_uuid = data.save::<Tag>(
        &mut st,
        Tag { uuid: "".to_string(), name: "FIND ME2!".to_string() },
    );
    data.save::<Tag>(&mut st, Tag { uuid: "".to_string(), name: "FIND ME3!".to_string() });

    // Valid uuid
    assert_eq!(new_uuid.len(), 36);

    // If is finded
    assert!(data.find_by_id(&st, new_uuid.as_str()));

    data.remove_by_id(&mut st, new_uuid.as_str());

    // uuid can't more finded
    assert!(!data.find_by_id(&st, new_uuid.as_str()));
}

#[test]
fn get_metadata() {
    // A store whose file opens with two metadata entries
    let texts = vec![
        "::metadata::key2 my value".to_string(),
        "::metadata::key3 my other value".to_string(),
    ];
    let mut st = Storage::load(&texts);

    // Checking if all operations are ok alongside the metadata
    assert!(st.start_section("accounts".to_string()));

    let mut data = st.get_section_data("accounts".to_string());

    data.save::<Tag>(&mut st, Tag { uuid: "".to_string(), name: "FIND ME!".to_string() });
    let new_uuid = data.save::<Tag>(
        &mut st,
        Tag { uuid: "".to_string(), name: "FIND ME2!".to_string() },
    );
    data.save::<Tag>(&mut st, Tag { uuid: "".to_string(), name: "FIND ME3!".to_string() });

    // Valid uuid
    assert_eq!(new_uuid.len(), 36);

    // If is finded
    assert!(data.find_by_id(&st, new_uuid.as_str()));

    let row = data.next::<Tag>(&st);

    assert!(row.is_ok());

    let row = row.unwrap();
    assert_eq!(row.uuid, new_uuid);
    assert_eq!(row.name, "FIND ME2!".to_string());

    // Now we can test the metadata
    assert_eq!(st.get_metadata().get("key1"), None);
    assert_eq!(st.get_metadata().get("key2"), Some("my value".to_string()));
    assert_eq!(st.get_metadata().get("key3"), Some("my other value".to_string()));
}
