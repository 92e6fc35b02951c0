use mdbx_txn::flags::DatabaseFlags;
use mdbx_txn::flags::WriteFlags;
use mdbx_txn::Environment;
use mdbx_txn::Error;

#[test]
fn test_put_get_del() {
    let mut env = Environment::new();

    let mut txn = env.begin_rw_txn().unwrap();
    let db = txn.open_db(None).unwrap();
    txn.put(&db, b"key1", b"val1", WriteFlags::empty()).unwrap();
    txn.put(&db, b"key2", b"val2", WriteFlags::empty()).unwrap();
    txn.put(&db, b"key3", b"val3", WriteFlags::empty()).unwrap();
    txn.commit(&mut env).unwrap();

    let mut txn = env.begin_rw_txn().unwrap();
    let db = txn.open_db(None).unwrap();
    assert_eq!(txn.get(&db, b"key1").unwrap(), Some(b"val1".to_vec()));
    assert_eq!(txn.get(&db, b"key2").unwrap(), Some(b"val2".to_vec()));
    assert_eq!(txn.get(&db, b"key3").unwrap(), Some(b"val3".to_vec()));
    assert_eq!(txn.get(&db, b"key").unwrap(), None);

    txn.del(&db, b"key1", None).unwrap();
    assert_eq!(txn.get(&db, b"key1").unwrap(), None);
}

#[test]
fn test_put_get_del_multi() {
    let mut env = Environment::new();

    let mut txn = env.begin_rw_txn().unwrap();
    let db = txn.create_db(None, DatabaseFlags::dup_sort()).unwrap();
    txn.put(&db, b"key1", b"val1", WriteFlags::empty()).unwrap();
    txn.put(&db, b"key1", b"val2", WriteFlags::empty()).unwrap();
    txn.put(&db, b"key1", b"val3", WriteFlags::empty()).unwrap();
    txn.put(&db, b"key2", b"val1", WriteFlags::empty()).unwrap();
    txn.put(&db, b"key2", b"val2", WriteFlags::empty()).unwrap();
    txn.put(&db, b"key2", b"val3", WriteFlags::empty()).unwrap();
    txn.put(&db, b"key3", b"val1", WriteFlags::empty()).unwrap();
    txn.put(&db, b"key3", b"val2", WriteFlags::empty()).unwrap();
    txn.put(&db, b"key3", b"val3", WriteFlags::empty()).unwrap();
    txn.commit(&mut env).unwrap();

    let mut txn = env.begin_rw_txn().unwrap();
    let db = txn.open_db(None).unwrap();
    {
        let cur = txn.cursor(&db).unwrap();
        let vals = cur.iter_dup_of(b"key1");
        assert_eq!(
            vals,
            vec![b"val1".to_vec(), b"val2".to_vec(), b"val3".to_vec()]
        );
    }
    txn.commit(&mut env).unwrap();

    let mut txn = env.begin_rw_txn().unwrap();
    let db = txn.open_db(None).unwrap();
    txn.del(&db, b"key1", Some(b"val2")).unwrap();
    txn.del(&db, b"key2", None).unwrap();
    txn.commit(&mut env).unwrap();

    let mut txn = env.begin_rw_txn().unwrap();
    let db = txn.open_db(None).unwrap();
    {
        let cur = txn.cursor(&db).unwrap();
        let vals = cur.iter_dup_of(b"key1");
        assert_eq!(vals, vec![b"val1".to_vec(), b"val3".to_vec()]);

        let vals = cur.iter_dup_of(b"key2");
        assert_eq!(0, vals.len());
    }
    txn.commit(&mut env).unwrap();
}

#[test]
fn test_put_get_del_empty_key() {
    let mut env = Environment::new();

    let mut txn = env.begin_rw_txn().unwrap();
    let db = txn.create_db(None, Default::default()).unwrap();
    txn.put(&db, b"", b"hello", WriteFlags::empty()).unwrap();
    assert_eq!(txn.get(&db, b"").unwrap(), Some(b"hello".to_vec()));
    txn.commit(&mut env).unwrap();

    let mut txn = env.begin_rw_txn().unwrap();
    let db = txn.open_db(None).unwrap();
    assert_eq!(txn.get(&db, b"").unwrap(), Some(b"hello".to_vec()));
    txn.put(&db, b"", b"", WriteFlags::empty()).unwrap();
    assert_eq!(txn.get(&db, b"").unwrap(), Some(b"".to_vec()));
}

#[test]
fn test_reserve() {
    let mut env = Environment::new();

    let mut txn = env.begin_rw_txn().unwrap();
    let db = txn.open_db(None).unwrap();
    {
        txn.reserve(&db, b"key1", 4, WriteFlags::empty()).unwrap();
        txn.fill_reserved(&db, b"key1", b"val1").unwrap();
    }
    txn.commit(&mut env).unwrap();

    let mut txn = env.begin_rw_txn().unwrap();
    let db = txn.open_db(None).unwrap();
    assert_eq!(txn.get(&db, b"key1").unwrap(), Some(b"val1".to_vec()));
    assert_eq!(txn.get(&db, b"key").unwrap(), None);

    txn.del(&db, b"key1", None).unwrap();
    assert_eq!(txn.get(&db, b"key1").unwrap(), None);
}

#[test]
fn test_nested_txn() {
    let mut env = Environment::new();

    let mut txn = env.begin_rw_txn().unwrap();
    let db = txn.open_db(None).unwrap();
    txn.put(&db, b"key1", b"val1", WriteFlags::empty()).unwrap();

    {
        let mut nested = txn.begin_nested_txn(&mut env).unwrap();
        let db = nested.open_db(None).unwrap();
        nested.put(&db, b"key2", b"val2", WriteFlags::empty()).unwrap();
        assert_eq!(nested.get(&db, b"key1").unwrap(), Some(b"val1".to_vec()));
        assert_eq!(nested.get(&db, b"key2").unwrap(), Some(b"val2".to_vec()));
        nested.finalize(&mut env).unwrap();
    }

    let db = txn.open_db(None).unwrap();
    assert_eq!(txn.get(&db, b"key1").unwrap(), Some(b"val1".to_vec()));
    assert_eq!(txn.get(&db, b"key2").unwrap(), None);
}

#[test]
fn test_clear_db() {
    let mut env = Environment::new();

    {
        let mut txn = env.begin_rw_txn().unwrap();
        let db = txn.open_db(None).unwrap();
        txn.put(&db, b"key", b"val", WriteFlags::empty()).unwrap();
        assert!(!txn.commit(&mut env).unwrap());
    }

    {
        let mut txn = env.begin_rw_txn().unwrap();
        let db = txn.open_db(None).unwrap();
        txn.clear_db(&db).unwrap();
        assert!(!txn.commit(&mut env).unwrap());
    }

    let txn = env.begin_ro_txn().unwrap();
    let db = txn.open_db(None).unwrap();
    assert_eq!(txn.get(&db, b"key").unwrap(), None);
}

#[test]
fn test_drop_db() {
    let mut env = Environment::new();
    env.set_max_dbs(2);

    {
        let mut txn = env.begin_rw_txn().unwrap();
        let db = txn.create_db(Some("test"), DatabaseFlags::empty()).unwrap();
        txn.put(&db, b"key", b"val", WriteFlags::empty()).unwrap();
        txn.create_db(Some("canary"), DatabaseFlags::empty()).unwrap();
        assert!(!txn.commit(&mut env).unwrap());
    }
    {
        let mut txn = env.begin_rw_txn().unwrap();
        let db = txn.open_db(Some("test")).unwrap();
        txn.drop_db(db).unwrap();
        assert!(matches!(
            txn.open_db(Some("test")).unwrap_err(),
            Error::NotFound
        ));
        assert!(!txn.commit(&mut env).unwrap());
    }

    let txn = env.begin_ro_txn().unwrap();
    txn.open_db(Some("canary")).unwrap();
    assert!(matches!(
        txn.open_db(Some("test")).unwrap_err(),
        Error::NotFound
    ));
}

#[test]
fn test_concurrent_readers_single_writer() {
    let mut env = Environment::new();

    let n = 10usize; // Number of readers kept open across the commit
    let mut pre_readers = Vec::with_capacity(n);

    let key = b"key";
    let val = b"val";

    for _ in 0..n {
        let txn = env.begin_ro_txn().unwrap();
        let db = txn.open_db(None).unwrap();
        assert_eq!(txn.get(&db, key).unwrap(), None);
        pre_readers.push(txn);
    }

    let mut txn = env.begin_rw_txn().unwrap();
    let db = txn.open_db(None).unwrap();
    txn.put(&db, key, val, WriteFlags::empty()).unwrap();
    txn.commit(&mut env).unwrap();

    let mut all_absent_before = true;
    for txn in &pre_readers {
        let db = txn.open_db(None).unwrap();
        all_absent_before &= txn.get(&db, key).unwrap().is_none();
    }
    let mut all_present_after = true;
    for _ in 0..n {
        let txn = env.begin_ro_txn().unwrap();
        let db = txn.open_db(None).unwrap();
        all_present_after &= txn.get(&db, key).unwrap().unwrap() == val.to_vec();
    }
    assert!(all_absent_before);
    assert!(all_present_after);
}

#[test]
fn test_concurrent_writers() {
    let mut env = Environment::new();

    let n = 10usize; // Number of writers committing in turn
    let mut all_committed = true;

    let key = "key";
    let val = "val";

    for i in 0..n {
        let mut txn = env.begin_rw_txn().unwrap();
        let db = txn.open_db(None).unwrap();
        txn.put(
            &db,
            format!("{}{}", key, i).as_bytes(),
            format!("{}{}", val, i).as_bytes(),
            WriteFlags::empty(),
        )
        .unwrap();
        all_committed &= txn.commit(&mut env).is_ok();
    }
    assert!(all_committed);

    let txn = env.begin_ro_txn().unwrap();
    let db = txn.open_db(None).unwrap();

    for i in 0..n {
        assert_eq!(
            format!("{}{}", val, i).into_bytes(),
            txn.get(&db, format!("{}{}", key, i).as_bytes())
                .unwrap()
                .unwrap()
        );
    }
}

#[test]
fn test_stat() {
    let mut env = Environment::new();

    let mut txn = env.begin_rw_txn().unwrap();
    let db = txn.create_db(None, DatabaseFlags::empty()).unwrap();
    txn.put(&db, b"key1", b"val1", WriteFlags::empty()).unwrap();
    txn.put(&db, b"key2", b"val2", WriteFlags::empty()).unwrap();
    txn.put(&db, b"key3", b"val3", WriteFlags::empty()).unwrap();
    txn.commit(&mut env).unwrap();

    {
        let txn = env.begin_ro_txn().unwrap();
        let db = txn.open_db(None).unwrap();
        let stat = txn.db_stat(&db).unwrap();
        assert_eq!(stat.entries(), 3);
    }

    let mut txn = env.begin_rw_txn().unwrap();
    let db = txn.open_db(None).unwrap();
    txn.del(&db, b"key1", None).unwrap();
    txn.del(&db, b"key2", None).unwrap();
    txn.commit(&mut env).unwrap();

    {
        let txn = env.begin_ro_txn().unwrap();
        let db = txn.open_db(None).unwrap();
        let stat = txn.db_stat(&db).unwrap();
        assert_eq!(stat.entries(), 1);
    }

    let mut txn = env.begin_rw_txn().unwrap();
    let db = txn.open_db(None).unwrap();
    txn.put(&db, b"key4", b"val4", WriteFlags::empty()).unwrap();
    txn.put(&db, b"key5", b"val5", WriteFlags::empty()).unwrap();
    txn.put(&db, b"key6", b"val6", WriteFlags::empty()).unwrap();
    txn.commit(&mut env).unwrap();

    {
        let txn = env.begin_ro_txn().unwrap();
        let db = txn.open_db(None).unwrap();
        let stat = txn.db_stat(&db).unwrap();
        assert_eq!(stat.entries(), 4);
    }
}

#[test]
fn test_stat_dupsort() {
    let mut env = Environment::new();

    let mut txn = env.begin_rw_txn().unwrap();
    let db = txn.create_db(None, DatabaseFlags::dup_sort()).unwrap();
    txn.put(&db, b"key1", b"val1", WriteFlags::empty()).unwrap();
    txn.put(&db, b"key1", b"val2", WriteFlags::empty()).unwrap();
    txn.put(&db, b"key1", b"val3", WriteFlags::empty()).unwrap();
    txn.put(&db, b"key2", b"val1", WriteFlags::empty()).unwrap();
    txn.put(&db, b"key2", b"val2", WriteFlags::empty()).unwrap();
    txn.put(&db, b"key2", b"val3", WriteFlags::empty()).unwrap();
    txn.put(&db, b"key3", b"val1", WriteFlags::empty()).unwrap();
    txn.put(&db, b"key3", b"val2", WriteFlags::empty()).unwrap();
    txn.put(&db, b"key3", b"val3", WriteFlags::empty()).unwrap();
    txn.commit(&mut env).unwrap();

    {
        let txn = env.begin_ro_txn().unwrap();
        let stat = txn.db_stat(&txn.open_db(None).unwrap()).unwrap();
        assert_eq!(stat.entries(), 9);
    }

    let mut txn = env.begin_rw_txn().unwrap();
    let db = txn.open_db(None).unwrap();
    txn.del(&db, b"key1", Some(b"val2")).unwrap();
    txn.del(&db, b"key2", None).unwrap();
    txn.commit(&mut env).unwrap();

    {
        let txn = env.begin_ro_txn().unwrap();
        let stat = txn.db_stat(&txn.open_db(None).unwrap()).unwrap();
        assert_eq!(stat.entries(), 5);
    }

    let mut txn = env.begin_rw_txn().unwrap();
    let db = txn.open_db(None).unwrap();
    txn.put(&db, b"key4", b"val1", WriteFlags::empty()).unwrap();
    txn.put(&db, b"key4", b"val2", WriteFlags::empty()).unwrap();
    txn.put(&db, b"key4", b"val3", WriteFlags::empty()).unwrap();
    txn.commit(&mut env).unwrap();

    {
        let txn = env.begin_ro_txn().unwrap();
        let stat = txn.db_stat(&txn.open_db(None).unwrap()).unwrap();
        assert_eq!(stat.entries(), 8);
    }
}
