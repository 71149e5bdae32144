use gawsh::error::Failure;
use gawsh::store::Store;

fn open() -> (sled::Db, Store) {
    let db = sled::Config::new().temporary(true).open().unwrap();
    let store = Store::open(db.clone()).unwrap();
    (db, store)
}

fn keys(listed: Vec<(Vec<u8>, Vec<u8>)>) -> Vec<Vec<u8>> {
    listed.into_iter().map(|(key, _)| key).collect()
}

#[test]
fn a_new_store_holds_nothing() {
    let (_db, store) = open();
    assert!(store.revisions().unwrap().is_empty());
    assert!(store.rendered_entries().unwrap().is_empty());
    assert!(store.pending_entries().unwrap().is_empty());
    assert!(store.dead_letter_entries().unwrap().is_empty());
    assert_eq!(store.is_known(b"x").unwrap(), false);
    assert_eq!(store.pending_filenames(b"x").unwrap(), None);
    assert_eq!(store.rendered_artifact(b"x").unwrap(), None);
}

#[test]
fn the_collections_have_their_names_in_the_database() {
    let (db, mut store) = open();
    store.add_revision(b"r").unwrap();
    store.record_entry(b"p", b"a.txt", true).unwrap();
    store.record_entry(b"d", b"b.txt", false).unwrap();
    store.record_entry(b"q", b"c.txt", true).unwrap();
    store.finish(b"q", Some(b"artifact")).unwrap();
    assert_eq!(db.open_tree("revs").unwrap().get(b"r").unwrap().unwrap().to_vec(), vec![0u8]);
    assert_eq!(
        db.open_tree("oids_todo").unwrap().get(b"p").unwrap().unwrap().to_vec(),
        b"a.txt".to_vec()
    );
    assert_eq!(db.open_tree("oids_dlq").unwrap().get(b"d").unwrap().unwrap().to_vec(), vec![0u8]);
    assert_eq!(
        db.open_tree("oids").unwrap().get(b"q").unwrap().unwrap().to_vec(),
        b"artifact".to_vec()
    );
}

#[test]
fn a_revision_is_recorded_once() {
    let (_db, mut store) = open();
    store.add_revision(b"rev-1").unwrap();
    store.add_revision(b"rev-2").unwrap();
    store.add_revision(b"rev-1").unwrap();
    assert_eq!(
        store.revisions().unwrap(),
        vec![(b"rev-1".to_vec(), vec![0u8]), (b"rev-2".to_vec(), vec![0u8])]
    );
}

#[test]
fn a_resolvable_object_is_recorded_as_pending() {
    let (_db, mut store) = open();
    store.record_entry(b"oid", b"a.txt", true).unwrap();
    assert_eq!(store.pending_filenames(b"oid").unwrap(), Some(b"a.txt".to_vec()));
    assert_eq!(store.is_known(b"oid").unwrap(), true);
    assert!(store.dead_letter_entries().unwrap().is_empty());
    assert!(store.rendered_entries().unwrap().is_empty());
}

#[test]
fn an_unresolvable_object_is_recorded_as_dead_lettered() {
    let (_db, mut store) = open();
    store.record_entry(b"oid", b"a.txt", false).unwrap();
    assert_eq!(store.dead_letter_entries().unwrap(), vec![(b"oid".to_vec(), vec![0u8])]);
    assert_eq!(store.is_known(b"oid").unwrap(), true);
    assert!(store.pending_entries().unwrap().is_empty());
}

#[test]
fn names_are_merged_into_a_pending_object() {
    let (_db, mut store) = open();
    store.record_entry(b"oid", b"x.py", true).unwrap();
    store.record_entry(b"oid", b"x.txt", true).unwrap();
    store.record_entry(b"other", b"y", true).unwrap();
    assert_eq!(store.pending_filenames(b"oid").unwrap(), Some(b"x.py\0x.txt".to_vec()));
    assert_eq!(store.pending_filenames(b"other").unwrap(), Some(b"y".to_vec()));
}

#[test]
fn merging_a_name_twice_stores_what_merging_it_once_stores() {
    let (_db, mut store) = open();
    store.record_entry(b"oid", b"x.py", true).unwrap();
    let once = store.pending_filenames(b"oid").unwrap();
    store.record_entry(b"oid", b"x.py", true).unwrap();
    assert_eq!(store.pending_filenames(b"oid").unwrap(), once);
    store.record_entry(b"oid", b"x.txt", true).unwrap();
    let once = store.pending_filenames(b"oid").unwrap();
    store.record_entry(b"oid", b"x.txt", true).unwrap();
    store.record_entry(b"oid", b"x.py", true).unwrap();
    assert_eq!(store.pending_filenames(b"oid").unwrap(), once);
    assert_eq!(once, Some(b"x.py\0x.txt".to_vec()));
}

#[test]
fn finishing_with_an_artifact_moves_the_object_to_rendered() {
    let (_db, mut store) = open();
    store.record_entry(b"oid", b"a.txt", true).unwrap();
    assert_eq!(store.finish(b"oid", Some(b"<table></table>")).unwrap(), true);
    assert_eq!(store.pending_filenames(b"oid").unwrap(), None);
    assert_eq!(store.rendered_artifact(b"oid").unwrap(), Some(b"<table></table>".to_vec()));
    assert_eq!(
        store.rendered_entries().unwrap(),
        vec![(b"oid".to_vec(), b"<table></table>".to_vec())]
    );
    assert_eq!(store.is_known(b"oid").unwrap(), true);
}

#[test]
fn finishing_without_an_artifact_leaves_the_object_in_no_collection() {
    let (_db, mut store) = open();
    store.record_entry(b"oid", b"a.bin", true).unwrap();
    assert_eq!(store.finish(b"oid", None).unwrap(), true);
    assert_eq!(store.is_known(b"oid").unwrap(), false);
    assert!(store.pending_entries().unwrap().is_empty());
    assert!(store.rendered_entries().unwrap().is_empty());
}

#[test]
fn finishing_an_object_that_is_not_pending_changes_nothing() {
    let (_db, mut store) = open();
    store.record_entry(b"dead", b"a.txt", false).unwrap();
    assert_eq!(store.finish(b"dead", Some(b"artifact")).unwrap(), false);
    assert_eq!(store.finish(b"unknown", Some(b"artifact")).unwrap(), false);
    assert!(store.rendered_entries().unwrap().is_empty());
    assert_eq!(keys(store.dead_letter_entries().unwrap()), vec![b"dead".to_vec()]);
}

#[test]
fn a_run_begins_without_pending_and_dead_lettered_objects() {
    let (_db, mut store) = open();
    store.add_revision(b"rev").unwrap();
    store.record_entry(b"done", b"a.txt", true).unwrap();
    store.finish(b"done", Some(b"artifact")).unwrap();
    store.record_entry(b"waiting", b"b.txt", true).unwrap();
    store.record_entry(b"dead", b"c.txt", false).unwrap();
    store.begin_run().unwrap();
    assert!(store.pending_entries().unwrap().is_empty());
    assert!(store.dead_letter_entries().unwrap().is_empty());
    assert_eq!(keys(store.rendered_entries().unwrap()), vec![b"done".to_vec()]);
    assert_eq!(keys(store.revisions().unwrap()), vec![b"rev".to_vec()]);
    // Names can be merged after the run has begun.
    store.record_entry(b"waiting", b"b.txt", true).unwrap();
    store.record_entry(b"waiting", b"c.txt", true).unwrap();
    assert_eq!(store.pending_filenames(b"waiting").unwrap(), Some(b"b.txt\0c.txt".to_vec()));
}

#[test]
fn rendered_records_outlast_the_store() {
    let db = sled::Config::new().temporary(true).open().unwrap();
    {
        let mut store = Store::open(db.clone()).unwrap();
        store.record_entry(b"oid", b"a.txt", true).unwrap();
        store.finish(b"oid", Some(b"artifact")).unwrap();
    }
    let store = Store::open(db.clone()).unwrap();
    assert_eq!(store.rendered_artifact(b"oid").unwrap(), Some(b"artifact".to_vec()));
}

#[test]
fn a_listing_gives_every_key_once_with_its_value() {
    let (_db, mut store) = open();
    store.record_entry(b"b", b"2", true).unwrap();
    store.record_entry(b"a", b"1", true).unwrap();
    store.record_entry(b"c", b"3", true).unwrap();
    store.record_entry(b"a", b"4", true).unwrap();
    assert_eq!(
        store.pending_entries().unwrap(),
        vec![
            (b"a".to_vec(), b"1\x004".to_vec()),
            (b"b".to_vec(), b"2".to_vec()),
            (b"c".to_vec(), b"3".to_vec())
        ]
    );
}

#[test]
fn a_failure_says_what_failed() {
    assert_eq!(Failure::Store("disk full".to_string()).message(), "store: disk full");
    assert_eq!(
        Failure::Repository("object not found".to_string()).message(),
        "repository: object not found"
    );
}

#[test]
fn a_listing_is_in_the_order_of_the_keys() {
    let (_db, mut store) = open();
    for key in [&b"b"[..], b"ab", b"a", b"", b"a\x00", b"\xff", b"aa"].iter() {
        store.add_revision(key).unwrap();
    }
    assert_eq!(
        keys(store.revisions().unwrap()),
        vec![
            b"".to_vec(),
            b"a".to_vec(),
            b"a\x00".to_vec(),
            b"aa".to_vec(),
            b"ab".to_vec(),
            b"b".to_vec(),
            b"\xff".to_vec()
        ]
    );
}
