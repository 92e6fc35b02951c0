use mdbx_txn::database::Database;
use mdbx_txn::error::ENGINE_BAD_DBI;
use mdbx_txn::error::ENGINE_BAD_VALSIZE;
use mdbx_txn::error::ENGINE_BUSY;
use mdbx_txn::error::ENGINE_DBS_FULL;
use mdbx_txn::error::ENGINE_INCOMPATIBLE;
use mdbx_txn::error::ENGINE_KEYEXIST;
use mdbx_txn::error::ENGINE_NOTFOUND;
use mdbx_txn::flags::DatabaseFlags;
use mdbx_txn::flags::WriteFlags;
use mdbx_txn::Environment;
use mdbx_txn::Error;

#[test]
fn test_abort_discards_writes() {
    let mut env = Environment::new();

    let mut txn = env.begin_rw_txn().unwrap();
    let db = txn.open_db(None).unwrap();
    txn.put(&db, b"key", b"val", WriteFlags::empty()).unwrap();
    // dropped without commit: the handle is finalized, nothing persists
    txn.finalize(&mut env).unwrap();

    let txn = env.begin_ro_txn().unwrap();
    let db = txn.open_db(None).unwrap();
    assert_eq!(txn.get(&db, b"key").unwrap(), None);
}

#[test]
fn test_failed_commit_leaves_uncommitted() {
    let mut env = Environment::new();

    let mut txn = env.begin_rw_txn().unwrap();
    let db = txn.open_db(None).unwrap();
    txn.put(&db, b"key", b"val", WriteFlags::empty()).unwrap();

    env.close();
    assert!(matches!(txn.commit(&mut env).unwrap_err(), Error::ProtocolError));
    assert!(!txn.committed);
    assert!(!txn.finished);
}

#[test]
fn test_nested_commit_folds_into_parent() {
    let mut env = Environment::new();

    let mut txn = env.begin_rw_txn().unwrap();
    let db = txn.open_db(None).unwrap();
    txn.put(&db, b"key1", b"val1", WriteFlags::empty()).unwrap();

    let mut nested = txn.begin_nested_txn(&mut env).unwrap();
    let ndb = nested.open_db(None).unwrap();
    nested.put(&ndb, b"key2", b"val2", WriteFlags::empty()).unwrap();
    nested.commit_nested(&mut txn).unwrap();

    // folded into the parent, visible there
    assert_eq!(txn.get(&db, b"key2").unwrap(), Some(b"val2".to_vec()));

    // not yet visible to a fresh read-only transaction
    {
        let ro = env.begin_ro_txn().unwrap();
        let rdb = ro.open_db(None).unwrap();
        assert_eq!(ro.get(&rdb, b"key2").unwrap(), None);
    }

    txn.commit(&mut env).unwrap();

    let ro = env.begin_ro_txn().unwrap();
    let rdb = ro.open_db(None).unwrap();
    assert_eq!(ro.get(&rdb, b"key1").unwrap(), Some(b"val1".to_vec()));
    assert_eq!(ro.get(&rdb, b"key2").unwrap(), Some(b"val2".to_vec()));
}

#[test]
fn test_single_writer_busy() {
    let mut env = Environment::new();

    let mut txn = env.begin_rw_txn().unwrap();
    assert!(matches!(env.begin_rw_txn().unwrap_err(), Error::BusyResource));
    txn.finalize(&mut env).unwrap();
    // the writer token is free again
    env.begin_rw_txn().unwrap();
}

#[test]
fn test_reader_slots_busy() {
    let mut env = Environment::new();
    env.set_max_readers(1);

    let mut ro = env.begin_ro_txn().unwrap();
    assert!(matches!(env.begin_ro_txn().unwrap_err(), Error::BusyResource));
    ro.finalize(&mut env).unwrap();
    env.begin_ro_txn().unwrap();
}

#[test]
fn test_finalize_is_idempotent() {
    let mut env = Environment::new();

    let mut txn = env.begin_rw_txn().unwrap();
    txn.finalize(&mut env).unwrap();
    txn.finalize(&mut env).unwrap();
    assert!(txn.finished);
    assert!(!txn.committed);
}

#[test]
fn test_commit_returns_sync_flag_and_consumes() {
    let mut env = Environment::new();

    let mut txn = env.begin_rw_txn().unwrap();
    let db = txn.open_db(None).unwrap();
    txn.put(&db, b"key", b"val", WriteFlags::empty()).unwrap();
    assert!(!txn.commit(&mut env).unwrap());
    assert!(txn.committed);
    assert!(txn.finished);
    // a later finalize does not abort a committed handle
    txn.finalize(&mut env).unwrap();

    let ro = env.begin_ro_txn().unwrap();
    let rdb = ro.open_db(None).unwrap();
    assert_eq!(ro.get(&rdb, b"key").unwrap(), Some(b"val".to_vec()));
}

#[test]
fn test_txn_ids_advance() {
    let mut env = Environment::new();

    let mut a = env.begin_rw_txn().unwrap();
    let ida = a.id();
    a.finalize(&mut env).unwrap();
    let b = env.begin_ro_txn().unwrap();
    assert_ne!(ida, b.id());
}

#[test]
fn test_key_exist_error() {
    let mut env = Environment::new();

    let mut txn = env.begin_rw_txn().unwrap();
    let db = txn.open_db(None).unwrap();
    txn.put(&db, b"key", b"old", WriteFlags::empty()).unwrap();
    assert_eq!(
        txn.put(&db, b"key", b"new", WriteFlags::no_overwrite()).unwrap_err(),
        Error::EngineError(ENGINE_KEYEXIST)
    );
    // the old value survived
    assert_eq!(txn.get(&db, b"key").unwrap(), Some(b"old".to_vec()));
}

#[test]
fn test_bad_dbi_error() {
    let mut env = Environment::new();

    let txn = env.begin_ro_txn().unwrap();
    let stale = Database::new_from_dbi(99);
    assert_eq!(
        txn.get(&stale, b"key").unwrap_err(),
        Error::EngineError(ENGINE_BAD_DBI)
    );
}

#[test]
fn test_incompatible_flags_error() {
    let mut env = Environment::new();
    env.set_max_dbs(2);

    let mut txn = env.begin_rw_txn().unwrap();
    let db = txn.create_db(Some("dup"), DatabaseFlags::dup_sort()).unwrap();
    txn.put(&db, b"key", b"val", WriteFlags::empty()).unwrap();
    // a non-empty sub-database cannot change flags
    assert_eq!(
        txn.create_db(Some("dup"), DatabaseFlags::empty()).unwrap_err(),
        Error::EngineError(ENGINE_INCOMPATIBLE)
    );
    // an empty one adopts the new flags
    txn.create_db(Some("fresh"), DatabaseFlags::empty()).unwrap();
    let db2 = txn.create_db(Some("fresh"), DatabaseFlags::dup_sort()).unwrap();
    assert!(txn.db_flags(&db2).unwrap().dup_sort);
}

#[test]
fn test_dbs_full_error() {
    let mut env = Environment::new();
    env.set_max_dbs(1);

    let mut txn = env.begin_rw_txn().unwrap();
    txn.create_db(Some("one"), DatabaseFlags::empty()).unwrap();
    assert_eq!(
        txn.create_db(Some("two"), DatabaseFlags::empty()).unwrap_err(),
        Error::EngineError(ENGINE_DBS_FULL)
    );
}

#[test]
fn test_reserve_on_dupsort_refused() {
    let mut env = Environment::new();

    let mut txn = env.begin_rw_txn().unwrap();
    let db = txn.create_db(None, DatabaseFlags::dup_sort()).unwrap();
    assert_eq!(
        txn.reserve(&db, b"key", 4, WriteFlags::empty()).unwrap_err(),
        Error::EngineError(ENGINE_INCOMPATIBLE)
    );
}

#[test]
fn test_fill_reserved_checks_length() {
    let mut env = Environment::new();

    let mut txn = env.begin_rw_txn().unwrap();
    let db = txn.open_db(None).unwrap();
    // no reservation yet
    assert_eq!(
        txn.fill_reserved(&db, b"key", b"val1").unwrap_err(),
        Error::EngineError(ENGINE_BAD_VALSIZE)
    );
    txn.reserve(&db, b"key", 4, WriteFlags::empty()).unwrap();
    // wrong length
    assert_eq!(
        txn.fill_reserved(&db, b"key", b"toolong").unwrap_err(),
        Error::EngineError(ENGINE_BAD_VALSIZE)
    );
    txn.fill_reserved(&db, b"key", b"val1").unwrap();
    assert_eq!(txn.get(&db, b"key").unwrap(), Some(b"val1".to_vec()));
}

#[test]
fn test_reserve_fill_equals_put() {
    let mut env = Environment::new();

    let mut txn = env.begin_rw_txn().unwrap();
    let db = txn.open_db(None).unwrap();
    txn.reserve(&db, b"key1", 4, WriteFlags::empty()).unwrap();
    txn.fill_reserved(&db, b"key1", b"val1").unwrap();
    txn.put(&db, b"key2", b"val1", WriteFlags::empty()).unwrap();
    txn.commit(&mut env).unwrap();

    let ro = env.begin_ro_txn().unwrap();
    let rdb = ro.open_db(None).unwrap();
    assert_eq!(ro.get(&rdb, b"key1").unwrap(), ro.get(&rdb, b"key2").unwrap());
}

#[test]
fn test_unfilled_reserve_reads_zero() {
    let mut env = Environment::new();

    let mut txn = env.begin_rw_txn().unwrap();
    let db = txn.open_db(None).unwrap();
    txn.reserve(&db, b"key", 3, WriteFlags::empty()).unwrap();
    assert_eq!(txn.get(&db, b"key").unwrap(), Some(vec![0u8, 0u8, 0u8]));
}

#[test]
fn test_dup_values_inserted_out_of_order() {
    let mut env = Environment::new();

    let mut txn = env.begin_rw_txn().unwrap();
    let db = txn.create_db(None, DatabaseFlags::dup_sort()).unwrap();
    txn.put(&db, b"k", b"val3", WriteFlags::empty()).unwrap();
    txn.put(&db, b"k", b"val1", WriteFlags::empty()).unwrap();
    txn.put(&db, b"k", b"val2", WriteFlags::empty()).unwrap();
    // storing an identical pair again changes nothing
    txn.put(&db, b"k", b"val2", WriteFlags::empty()).unwrap();

    let cur = txn.cursor(&db).unwrap();
    assert_eq!(
        cur.iter_dup_of(b"k"),
        vec![b"val1".to_vec(), b"val2".to_vec(), b"val3".to_vec()]
    );
    assert_eq!(txn.db_stat(&db).unwrap().entries(), 3);
    // the first duplicate is the smallest
    assert_eq!(txn.get(&db, b"k").unwrap(), Some(b"val1".to_vec()));
}

#[test]
fn test_del_absent_is_false_not_error() {
    let mut env = Environment::new();

    let mut txn = env.begin_rw_txn().unwrap();
    let db = txn.open_db(None).unwrap();
    assert_eq!(txn.del(&db, b"nope", None).unwrap(), false);
    txn.put(&db, b"key", b"val", WriteFlags::empty()).unwrap();
    assert_eq!(txn.del(&db, b"key", Some(b"other")).unwrap(), false);
    assert_eq!(txn.del(&db, b"key", None).unwrap(), true);
    assert_eq!(txn.get(&db, b"key").unwrap(), None);
}

#[test]
fn test_prime_for_permaopen_order() {
    let mut env = Environment::new();
    env.set_max_dbs(2);

    let mut txn = env.begin_rw_txn().unwrap();
    let a = txn.create_db(Some("a"), DatabaseFlags::empty()).unwrap();
    let b = txn.create_db(Some("b"), DatabaseFlags::empty()).unwrap();
    txn.prime_for_permaopen(b);
    txn.prime_for_permaopen(a);
    txn.prime_for_permaopen(b);
    let (sync, dbs) = txn.commit_and_rebind_open_dbs(&mut env).unwrap();
    assert!(!sync);
    let dbis: Vec<u32> = dbs.iter().map(|d| d.dbi()).collect();
    assert_eq!(dbis, vec![b.dbi(), a.dbi()]);
}

#[test]
fn test_drop_db_default_only_empties() {
    let mut env = Environment::new();

    let mut txn = env.begin_rw_txn().unwrap();
    let db = txn.open_db(None).unwrap();
    txn.put(&db, b"key", b"val", WriteFlags::empty()).unwrap();
    txn.drop_db(db).unwrap();
    let db = txn.open_db(None).unwrap();
    assert_eq!(txn.get(&db, b"key").unwrap(), None);
}

#[test]
fn test_error_code_mapping() {
    assert_eq!(Error::from_err_code(ENGINE_NOTFOUND), Error::NotFound);
    assert_eq!(Error::from_err_code(ENGINE_BUSY), Error::BusyResource);
    assert_eq!(Error::from_err_code(-1), Error::EngineError(-1));
    assert!(Error::NotFound.is_not_found());
    assert!(!Error::BusyResource.is_not_found());
}

#[test]
fn test_db_flags_report() {
    let mut env = Environment::new();

    let mut txn = env.begin_rw_txn().unwrap();
    let d = txn.create_db(Some("dup"), DatabaseFlags::dup_sort()).unwrap();
    let p = txn.open_db(None).unwrap();
    assert!(txn.db_flags(&d).unwrap().dup_sort);
    assert!(!txn.db_flags(&p).unwrap().dup_sort);
}
