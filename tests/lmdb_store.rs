use blackhole::codec::{decode_embedding, encode_embedding};
use blackhole::keys::reverse_key;
use blackhole::lmdb_backend::{stage_all, LmdbWrapper};
use blackhole::store::{EngineError, StoreError};
use blackhole::serving::{lookup_features, FeatureQuery, ServeError};
use blackhole::store::DbInterface;
use lmdb::{DatabaseFlags, Environment, EnvironmentFlags, Transaction};

fn open_env() -> (Environment, lmdb::Database) {
    let path = format!("/tmp/blackhole_store_{:016x}.mdb", rand::random::<u64>());
    let env = Environment::new()
        .set_flags(EnvironmentFlags::NO_SUB_DIR)
        .set_map_size(1 << 30)
        .set_max_dbs(1)
        .open(std::path::Path::new(&path))
        .unwrap();
    let db = env.create_db(None, DatabaseFlags::default()).unwrap();
    (env, db)
}

fn open_store() -> LmdbWrapper {
    let (env, db) = open_env();
    LmdbWrapper::new(env, db)
}

#[test]
fn lmdb_put_then_get() {
    let store = open_store();
    store.put(b"k1", &encode_embedding(&[7, 8])).unwrap();
    let v = store.get(b"k1").unwrap().unwrap();
    assert_eq!(decode_embedding(&v), Ok(vec![7, 8]));
    store.put(b"k1", &encode_embedding(&[9])).unwrap();
    assert_eq!(store.get(b"k1").unwrap(), Some(encode_embedding(&[9])));
    assert_eq!(store.db_type(), "lmdb");
    store.close().unwrap();
}

#[test]
fn lmdb_get_unknown_is_none() {
    let store = open_store();
    assert_eq!(store.get(b"missing").unwrap(), None);
    store.put(b"present", b"abcd").unwrap();
    assert_eq!(store.get(b"missing").unwrap(), None);
}

#[test]
fn lmdb_batch_is_readable_after_return() {
    let store = open_store();
    let items: Vec<(Vec<u8>, Vec<u8>)> = (0..1000u32)
        .map(|i| (format!("batch.{i:06}").into_bytes(), encode_embedding(&[i])))
        .collect();
    store.batch_put(&items).unwrap();
    for (k, v) in &items {
        assert_eq!(store.get(k).unwrap().as_ref(), Some(v));
    }
}

#[test]
fn lmdb_prefix_seek_returns_range_most_recent_first() {
    let store = open_store();
    for ts in [5u16, 10, 15, 20] {
        store.put(&reverse_key("e1.f", ts), &encode_embedding(&[ts as u32, 1000 + ts as u32])).unwrap();
    }
    store.put(&reverse_key("e2.f", 12), &encode_embedding(&[99])).unwrap();
    let got = store.prefix_seek("e1.f", 10, 20).unwrap();
    assert_eq!(got, vec![20, 1020, 15, 1015, 10, 1010]);
    assert_eq!(got.len() / 2, 3);
}

#[test]
fn lmdb_prefix_seek_empty_range_is_empty() {
    let store = open_store();
    for ts in [5u16, 10] {
        store.put(&reverse_key("e1.f", ts), &encode_embedding(&[ts as u32])).unwrap();
    }
    assert_eq!(store.prefix_seek("e1.f", 100, 200).unwrap(), Vec::<u32>::new());
    assert_eq!(store.prefix_seek("zz", 0, 65535).unwrap(), Vec::<u32>::new());
}

#[test]
fn lmdb_prefix_seek_on_empty_store_is_empty() {
    let store = open_store();
    assert_eq!(store.prefix_seek("e1.f", 0, 65535).unwrap(), Vec::<u32>::new());
}

#[test]
fn lmdb_lookup_features_by_entity_then_feature() {
    let store = open_store();
    store.put(&reverse_key("e1.f", 10), &encode_embedding(&[1])).unwrap();
    store.put(&reverse_key("e1.g", 11), &encode_embedding(&[2])).unwrap();
    store.put(&reverse_key("e2.f", 12), &encode_embedding(&[3])).unwrap();
    store.put(&reverse_key("e2.g", 13), &encode_embedding(&[4])).unwrap();
    store.put(&reverse_key("e2", 14), &encode_embedding(&[5])).unwrap();
    let q = |name: &str| FeatureQuery { name: name.to_string(), start_ts: 0, end_ts: 100 };
    let ids = vec!["e1".to_string(), "e2".to_string()];
    let rows = lookup_features(&store, &ids, &[q("f"), q("g")]).unwrap();
    assert_eq!(rows, vec![vec![vec![1], vec![2]], vec![vec![3], vec![4]]]);
    let rows = lookup_features(&store, &ids[1..], &[q("")]).unwrap();
    assert_eq!(rows, vec![vec![vec![5]]]);
    assert_eq!(lookup_features(&store, &ids, &[q("")]), Err(ServeError::NotFound));
    let late = FeatureQuery { name: "f".to_string(), start_ts: 50, end_ts: 60 };
    assert_eq!(lookup_features(&store, &ids, &[late]), Err(ServeError::NotFound));
}

#[test]
fn lmdb_failed_batch_leaves_nothing_visible() {
    let store = open_store();
    let items = vec![
        (b"good.1".to_vec(), encode_embedding(&[1])),
        (Vec::new(), encode_embedding(&[2])),
        (b"good.3".to_vec(), encode_embedding(&[3])),
    ];
    assert!(matches!(store.batch_put(&items), Err(StoreError::Engine(EngineError::Lmdb(_)))));
    assert_eq!(store.get(b"good.1").unwrap(), None);
    assert_eq!(store.get(b"good.3").unwrap(), None);
}

#[test]
fn lmdb_stage_all_then_commit_writes_every_item() {
    let (env, db) = open_env();
    let items = vec![(b"a".to_vec(), b"1111".to_vec()), (b"b".to_vec(), b"2222".to_vec()), (b"a".to_vec(), b"3333".to_vec())];
    let mut txn = env.begin_rw_txn().unwrap();
    stage_all(&mut txn, db, &items).unwrap();
    txn.commit().unwrap();
    let store = LmdbWrapper::new(env, db);
    assert_eq!(store.get(b"a").unwrap(), Some(b"3333".to_vec()));
    assert_eq!(store.get(b"b").unwrap(), Some(b"2222".to_vec()));
}

#[test]
fn lmdb_prefix_seek_reversed_bounds_is_empty() {
    let store = open_store();
    for ts in [5u16, 10, 15] {
        store.put(&reverse_key("e1.f", ts), &encode_embedding(&[ts as u32])).unwrap();
    }
    assert_eq!(store.prefix_seek("e1.f", 15, 5).unwrap(), Vec::<u32>::new());
}

#[test]
fn lmdb_prefix_seek_split_range_concatenates() {
    let store = open_store();
    for ts in [1u16, 4, 7, 9, 12] {
        store.put(&reverse_key("e.f", ts), &encode_embedding(&[ts as u32])).unwrap();
    }
    let whole = store.prefix_seek("e.f", 2, 12).unwrap();
    let mut newer = store.prefix_seek("e.f", 8, 12).unwrap();
    let older = store.prefix_seek("e.f", 2, 7).unwrap();
    newer.extend(older);
    assert_eq!(whole, vec![12, 9, 7, 4]);
    assert_eq!(whole, newer);
}
