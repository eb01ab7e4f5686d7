use rhea::Error;
use rhea::Library;
use rhea::State;

fn fresh() -> State {
    State::load("/r".to_string(), None).unwrap()
}

#[test]
fn empty_catalog_renders_empty_document() {
    let st = fresh();
    assert_eq!(st.save(), "");
    let back = State::load("/r".to_string(), Some("")).unwrap();
    assert!(back.disks().is_empty());
    assert!(back.machines().is_empty());
    assert!(back.snapshots().is_empty());
}

#[test]
fn document_text_is_exact() {
    let mut st = fresh();
    st.add_disk("d1", 20).unwrap();
    st.add_machine("vm1", 8192, 64).unwrap();
    st.add_snapshot("s1", "vm1").unwrap();
    let expected = "[[disk]]\nname = \"d1\"\nsize = 20\n\
                    [[machine]]\nname = \"vm1\"\nport = 8192\nsize = 64\n\
                    [[snapshot]]\nname = \"s1\"\nbase = \"vm1\"\nport = 8192\nsize = 64\n";
    assert_eq!(st.save(), expected);
}

#[test]
fn save_then_load_reproduces_catalog() {
    let mut st = fresh();
    st.add_disk("d1", 20).unwrap();
    st.add_disk("d2", 7).unwrap();
    st.add_machine("vm1", 8192, 64).unwrap();
    st.add_snapshot("s1", "vm1").unwrap();
    let text = st.save();
    let back = State::load("/r".to_string(), Some(text.as_str())).unwrap();
    assert_eq!(back.get_disk("d1").unwrap().size, 20);
    assert_eq!(back.get_disk("d2").unwrap().size, 7);
    let m = back.get_machine("vm1").unwrap();
    assert_eq!(m.port, 8192);
    assert_eq!(m.size, 64);
    let s = back.get_snapshot("s1").unwrap();
    assert_eq!(s.base, "vm1");
    assert_eq!(s.port, 8192);
    assert_eq!(s.size, 64);
    assert_eq!(back.disks().len(), 2);
    assert_eq!(back.save(), text);
}

#[test]
fn round_trip_escapes_awkward_names() {
    let mut st = fresh();
    let name = "we\"ird\\na\nme\td\risk";
    st.add_disk(name, 3).unwrap();
    let text = st.save();
    let back = State::load("/r".to_string(), Some(text.as_str())).unwrap();
    let d = back.get_disk(name).unwrap();
    assert_eq!(d.name, name);
    assert_eq!(d.size, 3);
    assert_eq!(back.save(), text);
}

#[test]
fn load_save_load_is_idempotent_on_content() {
    let mut st = fresh();
    st.add_machine("vm1", 1, 1).unwrap();
    st.add_machine("vm2", 2, 2).unwrap();
    let text1 = st.save();
    let once = State::load("/r".to_string(), Some(text1.as_str())).unwrap();
    let text2 = once.save();
    assert_eq!(text1, text2);
}

#[test]
fn malformed_documents_are_rejected() {
    for bad in [
        "[[disk]]\n",
        "[[disk]]\nname = \"d1\"\n",
        "[[disk]]\nname = \"d1\"\nsize = \n",
        "[[disk]]\nname = \"d1\"\nsize = 20",
        "[[disk]]\nname = \"d1\nsize = 20\n",
        "[[disk]]\nname = \"d1\"\nsize = 20\ntrailing",
        "nonsense",
        "[[machine]]\nname = \"m\"\nport = 65536\nsize = 1\n",
        "[[machine]]\nname = \"m\"\nport = 80\nsize = 99999999999999999999999\n",
        "[[disk]]\nname = \"d\\q\"\nsize = 1\n",
    ] {
        let r = State::load("/r".to_string(), Some(bad));
        assert!(matches!(r, Err(Error::Deserialization)), "accepted: {bad:?}");
    }
}

#[test]
fn duplicate_names_are_rejected() {
    let doc = "[[disk]]\nname = \"d\"\nsize = 1\n[[disk]]\nname = \"d\"\nsize = 2\n";
    assert!(matches!(
        State::load("/r".to_string(), Some(doc)),
        Err(Error::Deserialization)
    ));
    let ok = "[[disk]]\nname = \"d\"\nsize = 1\n[[disk]]\nname = \"e\"\nsize = 2\n";
    assert!(State::load("/r".to_string(), Some(ok)).is_ok());
}

#[test]
fn machines_before_disks_are_rejected() {
    let doc = "[[machine]]\nname = \"m\"\nport = 1\nsize = 1\n[[disk]]\nname = \"d\"\nsize = 1\n";
    assert!(matches!(
        State::load("/r".to_string(), Some(doc)),
        Err(Error::Deserialization)
    ));
}

#[test]
fn port_and_size_bounds_round_trip() {
    let mut st = fresh();
    st.add_machine("m", 65535, 0).unwrap();
    let text = st.save();
    let back = State::load("/r".to_string(), Some(text.as_str())).unwrap();
    let m = back.get_machine("m").unwrap();
    assert_eq!(m.port, 65535);
    assert_eq!(m.size, 0);
}

#[test]
fn names_that_mimic_document_syntax_round_trip() {
    let mut st = State::load("/r".to_string(), None).unwrap();
    st.add_disk("[[disk]]", 1).unwrap();
    st.add_disk("name = \"x\"", 2).unwrap();
    let text = st.save();
    let back = State::load("/r".to_string(), Some(text.as_str())).unwrap();
    assert_eq!(back.get_disk("[[disk]]").unwrap().size, 1);
    assert_eq!(back.get_disk("name = \"x\"").unwrap().size, 2);
    assert_eq!(back.disks().len(), 2);
}

#[test]
fn empty_name_round_trips() {
    let mut st = State::load("/r".to_string(), None).unwrap();
    st.add_disk("", 5).unwrap();
    let text = st.save();
    assert_eq!(text, "[[disk]]\nname = \"\"\nsize = 5\n");
    let back = State::load("/r".to_string(), Some(text.as_str())).unwrap();
    assert_eq!(back.get_disk("").unwrap().size, 5);
}

#[test]
fn library_document_text_is_exact() {
    let mut lib = Library::new("/r".to_string());
    lib.add_disk("d1", 20).unwrap();
    lib.backup_disk("d1").unwrap();
    lib.add_machine("m1", 8192, 64).unwrap();
    let expected = "[[disk]]\nname = \"d1\"\nsize = 20\n\
                    [[disk_backup]]\nname = \"d1\"\nsize = 20\n\
                    [[machine]]\nname = \"m1\"\nport = 8192\nsize = 64\n";
    assert_eq!(lib.save(), expected);
}

#[test]
fn library_save_then_load_reproduces_catalogs() {
    let mut lib = Library::new("/r".to_string());
    lib.add_disk("d1", 20).unwrap();
    lib.add_machine("m1", 8192, 64).unwrap();
    lib.backup_disk("d1").unwrap();
    lib.backup_machine("m1").unwrap();
    let text = lib.save();
    let back = Library::load("/r".to_string(), Some(text.as_str())).unwrap();
    assert_eq!(back.get_disk("d1").unwrap().size, 20);
    assert_eq!(back.get_machine("m1").unwrap().port, 8192);
    assert_eq!(back.save(), text);
    let empty = Library::load("/r".to_string(), None).unwrap();
    assert!(empty.disks().is_empty());
    assert!(matches!(
        Library::load("/r".to_string(), Some("garbage")),
        Err(Error::Deserialization)
    ));
}

#[test]
fn backup_rerecords_current_descriptor_and_keeps_others() {
    let mut lib = Library::new("/r".to_string());
    lib.add_disk("d1", 20).unwrap();
    lib.add_disk("d2", 7).unwrap();
    lib.backup_disk("d1").unwrap();
    lib.backup_disk("d2").unwrap();
    lib.remove_disk("d1", "").unwrap();
    lib.add_disk("d1", 99).unwrap();
    lib.backup_disk("d1").unwrap();
    let expected = "[[disk]]\nname = \"d2\"\nsize = 7\n\
                    [[disk]]\nname = \"d1\"\nsize = 99\n\
                    [[disk_backup]]\nname = \"d2\"\nsize = 7\n\
                    [[disk_backup]]\nname = \"d1\"\nsize = 99\n";
    assert_eq!(lib.save(), expected);
}
