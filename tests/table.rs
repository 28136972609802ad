use urcu_ht::{delete_outcome, power_of_two, validate_params};
use urcu_ht::{RcuError, RcuHt, ThreadData, ThreadRegistration};

#[test]
fn it_works() {
    let mut ht = RcuHt::<String>::new(64, 64, 64, false)
        .expect("Cannot create hashtable, probably due to invalid parameters");
    let writer_thread = ht.thread();
    let reader_thread = ht.thread();
    {
        let mut wrlock = writer_thread.wrlock(&mut ht).unwrap();
        wrlock.insert_or_replace(
            &mut ht,
            "Adventures of Huckleberry Finn".to_string(),
            "My favorite book.".to_string(),
        );
        wrlock.close(&mut ht);
    }
    {
        let mut wrlock = writer_thread.wrlock(&mut ht).unwrap();
        wrlock.insert_or_replace(
            &mut ht,
            "Grimms' Fairy Tales".to_string(),
            "Masterpiece.".to_string(),
        );
        wrlock.close(&mut ht);
    }
    let rdlock = reader_thread.rdlock(&mut ht);
    let opinion = rdlock.get(&ht, "Adventures of Huckleberry Finn");
    assert_eq!(opinion.is_some(), true);
    let opinion = opinion.unwrap();
    assert_eq!(opinion.eq("My favorite book."), true);
    rdlock.close(&mut ht);
    reader_thread.close(&mut ht);
    writer_thread.close(&mut ht);
}

#[test]
fn insert_replace_remove_scenario() {
    let mut ht = RcuHt::<String>::new(64, 64, 64, false).unwrap();
    let th = ht.thread();
    let mut w = th.wrlock(&mut ht).unwrap();
    w.insert_or_replace(&mut ht, "A".to_string(), "1".to_string());
    w.insert_or_replace(&mut ht, "B".to_string(), "2".to_string());
    w.close(&mut ht);

    let r = th.rdlock(&mut ht);
    assert_eq!(r.get(&ht, "A").map(|v| v.as_str()), Some("1"));
    r.close(&mut ht);

    let mut w = th.wrlock(&mut ht).unwrap();
    w.insert_or_replace(&mut ht, "A".to_string(), "3".to_string());
    w.close(&mut ht);

    let r = th.rdlock(&mut ht);
    assert_eq!(r.get(&ht, "A").map(|v| v.as_str()), Some("3"));
    r.close(&mut ht);

    let mut w = th.wrlock(&mut ht).unwrap();
    assert_eq!(w.remove(&mut ht, "B"), Ok(()));
    w.close(&mut ht);

    let r = th.rdlock(&mut ht);
    assert_eq!(r.get(&ht, "B"), None);
    r.close(&mut ht);

    let mut w = th.wrlock(&mut ht).unwrap();
    assert_eq!(w.remove(&mut ht, "B"), Err(RcuError::NotFound));
    w.close(&mut ht);
    th.close(&mut ht);
}

#[test]
fn get_after_insert_finds_value() {
    let mut ht = RcuHt::<u32>::new(1, 1, 0, true).unwrap();
    let th = ht.thread();
    let mut w = th.wrlock(&mut ht).unwrap();
    for i in 0..50u32 {
        w.insert_or_replace(&mut ht, format!("key{}", i), i * 7);
    }
    w.close(&mut ht);
    let r = th.rdlock(&mut ht);
    for i in 0..50u32 {
        assert_eq!(r.get(&ht, &format!("key{}", i)), Some(&(i * 7)));
    }
    assert_eq!(r.get(&ht, "key50"), None);
    assert_eq!(r.get(&ht, ""), None);
    r.close(&mut ht);
    th.close(&mut ht);
}

#[test]
fn replace_keeps_one_entry_and_retires_the_old_one() {
    let mut ht = RcuHt::<u64>::new(64, 64, 64, false).unwrap();
    let th = ht.thread();
    let mut w = th.wrlock(&mut ht).unwrap();
    w.insert_or_replace(&mut ht, "k".to_string(), 1);
    w.insert_or_replace(&mut ht, "k".to_string(), 2);
    assert_eq!(w.remove(&mut ht, "k"), Ok(()));
    assert_eq!(w.remove(&mut ht, "k"), Err(RcuError::NotFound));
    w.close(&mut ht);
    // the replaced entry and the removed one wait for reclamation
    assert_eq!(ht.reclaim(), 2);
    assert_eq!(ht.reclaim(), 0);
    th.close(&mut ht);
}

#[test]
fn open_reader_delays_reclamation() {
    let mut ht = RcuHt::<String>::new(64, 64, 64, false).unwrap();
    let th = ht.thread();
    let mut w = th.wrlock(&mut ht).unwrap();
    w.insert_or_replace(&mut ht, "k".to_string(), "v".to_string());
    w.close(&mut ht);

    let r = th.rdlock(&mut ht);
    assert_eq!(r.get(&ht, "k").map(|v| v.as_str()), Some("v"));

    let mut w = th.wrlock(&mut ht).unwrap();
    assert_eq!(w.remove(&mut ht, "k"), Ok(()));
    w.close(&mut ht);

    // a session opened after the removal does not protect the entry,
    // but the one that was open before it does
    let late = th.rdlock(&mut ht);
    assert_eq!(late.get(&ht, "k"), None);
    assert_eq!(ht.reclaim(), 0);
    assert_eq!(ht.reclaim(), 0);
    r.close(&mut ht);
    assert_eq!(ht.reclaim(), 1);
    late.close(&mut ht);
    th.close(&mut ht);
}

#[test]
fn writer_lock_is_exclusive() {
    let mut ht = RcuHt::<u8>::new(64, 64, 64, false).unwrap();
    let a = ht.thread();
    let b = ht.thread();
    let w = a.wrlock(&mut ht).unwrap();
    assert!(b.wrlock(&mut ht).is_none());
    assert!(a.wrlock(&mut ht).is_none());
    w.close(&mut ht);
    let w = b.wrlock(&mut ht);
    assert!(w.is_some());
    w.unwrap().close(&mut ht);
    b.close(&mut ht);
    a.close(&mut ht);
}

#[test]
fn new_checks_sizing_parameters() {
    assert!(RcuHt::<u8>::new(64, 64, 64, false).is_ok());
    assert!(RcuHt::<u8>::new(1, 1, 0, true).is_ok());
    assert_eq!(RcuHt::<u8>::new(0, 64, 64, false).err(), Some(RcuError::InvalidParameters));
    assert_eq!(RcuHt::<u8>::new(64, 0, 64, false).err(), Some(RcuError::InvalidParameters));
    assert_eq!(RcuHt::<u8>::new(48, 64, 64, false).err(), Some(RcuError::InvalidParameters));
    assert_eq!(RcuHt::<u8>::new(64, 64, 100, false).err(), Some(RcuError::InvalidParameters));
    assert_eq!(validate_params(64, 64, 0), Ok(()));
    assert_eq!(validate_params(64, 3, 0), Err(RcuError::InvalidParameters));
}

#[test]
fn power_of_two_values() {
    assert!(!power_of_two(0));
    assert!(power_of_two(1));
    assert!(power_of_two(2));
    assert!(!power_of_two(3));
    assert!(power_of_two(1u64 << 63));
    assert!(!power_of_two(u64::MAX));
    assert!(!power_of_two(96));
}

#[test]
fn registration_counts_nesting() {
    let mut reg = ThreadRegistration::new();
    assert_eq!(reg.contexts(), 0);
    assert!(reg.acquire());
    assert!(!reg.acquire());
    assert_eq!(reg.contexts(), 2);
    assert!(!reg.release());
    assert!(reg.release());
    assert_eq!(reg.contexts(), 0);
    assert!(reg.acquire());
}

#[test]
fn delete_outcome_cases() {
    assert_eq!(delete_outcome(false, 0), Err(RcuError::NotFound));
    assert_eq!(delete_outcome(false, -2), Err(RcuError::NotFound));
    assert_eq!(delete_outcome(true, 0), Ok(()));
    assert_eq!(delete_outcome(true, -2), Err(RcuError::DeleteError(-2)));
}

#[test]
fn thread_data_counts_lookups() {
    let mut d = ThreadData::new();
    assert_eq!((d.key_found, d.key_not_found), (0, 0));
    d.record(true);
    d.record(false);
    d.record(true);
    assert_eq!((d.key_found, d.key_not_found), (2, 1));
}

#[test]
fn thread_contexts_nest_and_sizing_is_kept() {
    let mut ht = RcuHt::<u8>::new(128, 32, 0, true).unwrap();
    assert_eq!(ht.sizing(), (128, 32, 0, true));
    let outer = ht.thread();
    let inner = ht.thread();
    assert!(!inner.close(&mut ht));
    assert!(outer.close(&mut ht));
}
