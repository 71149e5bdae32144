use gawsh::assemble::{list_tree, listing_of, renderable_tree_object};
use gawsh::error::Failure;
use gawsh::history::{serialized_revs_from_repo, RefSelection};
use gawsh::oid::ObjectId;
use gawsh::page::render_artifact;
use gawsh::pipeline::run;
use gawsh::queue::{
    determine_oids_to_render, enqueue_entries, enqueue_entry, walk_revision, Enqueued,
};
use gawsh::render::{
    finish_blob, render_content, render_text_blob, render_text_blobs, BlobOutcome, Rendering,
};
use gawsh::repo::{Blob, EntryKind, TreeEntry};
use gawsh::schedule::Scheduled;
use gawsh::store::Store;
use gawsh::tree_object::RenderableTreeObject;

const MISSING: &str = "1111111111111111111111111111111111111111";

struct Fixture {
    _dir: tempfile::TempDir,
    _db: sled::Db,
    repo: git2::Repository,
    store: Store,
}

fn fixture() -> Fixture {
    let dir = tempfile::tempdir().unwrap();
    let repo = git2::Repository::init(dir.path()).unwrap();
    let db = sled::Config::new().temporary(true).open().unwrap();
    let store = Store::open(db.clone()).unwrap();
    Fixture { _dir: dir, _db: db, repo, store }
}

/// A tree with one blob for each file, and one entry of a commit that the
/// repository does not hold for each name in `missing`.
fn tree(repo: &git2::Repository, files: &[(&str, &[u8])], missing: &[&str]) -> git2::Oid {
    let mut builder = repo.treebuilder(None).unwrap();
    for (name, content) in files.iter() {
        let blob = repo.blob(content).unwrap();
        builder.insert(name, blob, 0o100644).unwrap();
    }
    for name in missing.iter() {
        builder.insert(name, git2::Oid::from_str(MISSING).unwrap(), 0o160000).unwrap();
    }
    builder.write().unwrap()
}

fn commit_tree(repo: &git2::Repository, tree: git2::Oid) -> git2::Oid {
    let tree = repo.find_tree(tree).unwrap();
    let author = git2::Signature::new("a", "a@example.com", &git2::Time::new(0, 0)).unwrap();
    let parents: Vec<git2::Commit> = match repo.head() {
        Ok(head) => vec![head.peel_to_commit().unwrap()],
        Err(_) => Vec::new(),
    };
    let parents: Vec<&git2::Commit> = parents.iter().collect();
    repo.commit(Some("HEAD"), &author, &author, "commit", &tree, &parents).unwrap()
}

fn commit(repo: &git2::Repository, files: &[(&str, &[u8])]) -> git2::Oid {
    commit_tree(repo, tree(repo, files, &[]))
}

fn blob_id(content: &[u8]) -> Vec<u8> {
    git2::Oid::hash_object(git2::ObjectType::Blob, content).unwrap().as_bytes().to_vec()
}

fn keys(listed: Vec<(Vec<u8>, Vec<u8>)>) -> Vec<Vec<u8>> {
    listed.into_iter().map(|(key, _)| key).collect()
}

fn sorted(mut ids: Vec<Vec<u8>>) -> Vec<Vec<u8>> {
    ids.sort();
    ids
}

fn rows(artifact: &[u8]) -> usize {
    String::from_utf8(artifact.to_vec()).unwrap().matches("<tr ").count()
}

fn assert_exclusive(store: &Store) {
    let rendered = keys(store.rendered_entries().unwrap());
    let pending = keys(store.pending_entries().unwrap());
    let dead = keys(store.dead_letter_entries().unwrap());
    for id in rendered.iter() {
        assert!(!pending.contains(id) && !dead.contains(id));
    }
    for id in pending.iter() {
        assert!(!dead.contains(id));
    }
}

#[test]
fn one_commit_with_one_text_file_renders_one_object() {
    let mut f = fixture();
    commit(&f.repo, &[("a.txt", b"hi\n")]);
    let report = run(&f.repo, &mut f.store, 0, RefSelection::AllRefs).unwrap();
    assert_eq!(report.revisions, 1);
    assert_eq!(report.render.rendered, 1);
    assert!(report.queue.failures.is_empty() && report.render.failures.is_empty());
    let rendered = f.store.rendered_entries().unwrap();
    assert_eq!(rendered.len(), 1);
    assert_eq!(rendered[0].0, blob_id(b"hi\n"));
    assert_eq!(
        ObjectId::from_bytes(&rendered[0].0).unwrap().to_hex(),
        "45b983be36b73c0788dc9cbcb76cbb80fc7bb057"
    );
    assert!(f.store.dead_letter_entries().unwrap().is_empty());
    assert!(f.store.pending_entries().unwrap().is_empty());
    assert_eq!(
        String::from_utf8(rendered[0].1.clone()).unwrap(),
        "<table><tr id=\"L1\"><td class=\"gawsh-line-number\"><a href=\"#L1\"><pre>1</pre></a></td>\
         <td class=\"gawsh-line-content-wrapper\"><pre class=\"gawsh-line-content\">\
         <span class=\"gawsh-text gawsh-plain\">hi</span></pre></td></tr></table>"
    );
    assert_eq!(rows(&rendered[0].1), 1);
}

#[test]
fn an_unchanged_file_is_rendered_once_for_two_commits() {
    let mut f = fixture();
    commit(&f.repo, &[("a.txt", b"hi\n")]);
    commit(&f.repo, &[("a.txt", b"hi\n"), ("b.txt", b"there\n")]);
    let report = run(&f.repo, &mut f.store, 0, RefSelection::AllRefs).unwrap();
    assert_eq!(report.revisions, 2);
    assert_eq!(f.store.revisions().unwrap().len(), 2);
    assert_eq!(report.render.rendered, 2);
    assert_eq!(
        sorted(keys(f.store.rendered_entries().unwrap())),
        sorted(vec![blob_id(b"hi\n"), blob_id(b"there\n")])
    );
}

#[test]
fn an_entry_that_cannot_be_resolved_is_dead_lettered_once() {
    let mut f = fixture();
    let first = tree(&f.repo, &[("a.txt", b"hi\n")], &["gone"]);
    commit_tree(&f.repo, first);
    let second = tree(&f.repo, &[("a.txt", b"hi\n"), ("b.txt", b"there\n")], &["gone", "lost"]);
    commit_tree(&f.repo, second);
    let missing = git2::Oid::from_str(MISSING).unwrap().as_bytes().to_vec();
    let report = run(&f.repo, &mut f.store, 0, RefSelection::AllRefs).unwrap();
    assert_eq!(f.store.dead_letter_entries().unwrap(), vec![(missing.clone(), vec![0u8])]);
    assert_eq!(report.queue.dead_lettered, vec![missing.clone()]);
    assert_eq!(report.queue.walked, 2);
    assert!(report.queue.failures.is_empty());
    assert_eq!(report.render.rendered, 2);
    assert_eq!(f.store.rendered_artifact(&missing).unwrap(), None);
    assert_exclusive(&f.store);
}

#[test]
fn two_names_of_one_content_are_merged_and_the_first_hints() {
    let mut f = fixture();
    commit(&f.repo, &[("x.py", b"print('hi')\n"), ("x.txt", b"print('hi')\n")]);
    let id = blob_id(b"print('hi')\n");
    // Two workers that both found the object unknown both record it.
    f.store.record_entry(&id, b"x.py", true).unwrap();
    f.store.record_entry(&id, b"x.txt", true).unwrap();
    assert_eq!(f.store.pending_filenames(&id).unwrap(), Some(b"x.py\0x.txt".to_vec()));
    let outcome = render_text_blob(&f.repo, &mut f.store, &id).unwrap();
    assert!(matches!(outcome, BlobOutcome::Rendered { ambiguous: true }));
    let artifact = f.store.rendered_artifact(&id).unwrap().unwrap();
    assert_eq!(
        artifact,
        render_artifact(b"print('hi')\n", &vec![b"x.py".to_vec()]).unwrap()
    );
    assert!(String::from_utf8(artifact).unwrap().contains("gawsh-python"));
    assert!(f.store.pending_entries().unwrap().is_empty());
}

#[test]
fn the_renderer_reports_objects_with_ambiguous_names() {
    let mut f = fixture();
    commit(&f.repo, &[("x.py", b"print('hi')\n"), ("y.py", b"print('ho')\n")]);
    f.store.record_entry(&blob_id(b"print('hi')\n"), b"x.py", true).unwrap();
    f.store.record_entry(&blob_id(b"print('hi')\n"), b"x.txt", true).unwrap();
    f.store.record_entry(&blob_id(b"print('ho')\n"), b"y.py", true).unwrap();
    f.store.record_entry(&blob_id(b"print('ho')\n"), b"z.py", true).unwrap();
    let report = render_text_blobs(&f.repo, &mut f.store).unwrap();
    assert_eq!(report.rendered, 2);
    assert_eq!(report.ambiguous, vec![blob_id(b"print('hi')\n")]);
}

#[test]
fn a_known_object_keeps_the_name_that_it_was_first_seen_under() {
    let mut f = fixture();
    let head = commit(&f.repo, &[("x.py", b"print('hi')\n"), ("x.txt", b"print('hi')\n")]);
    let walk = walk_revision(&f.repo, &mut f.store, head.as_bytes()).unwrap();
    assert_eq!(walk.outcomes, vec![Enqueued::Queued, Enqueued::Known]);
    assert_eq!(
        f.store.pending_filenames(&blob_id(b"print('hi')\n")).unwrap(),
        Some(b"x.py".to_vec())
    );
}

#[test]
fn a_second_run_renders_nothing_new() {
    let mut f = fixture();
    commit(&f.repo, &[("a.txt", b"hi\n"), ("b.rs", b"fn main() {}\n")]);
    commit(&f.repo, &[("a.txt", b"ho\n"), ("b.rs", b"fn main() {}\n")]);
    run(&f.repo, &mut f.store, 0, RefSelection::AllRefs).unwrap();
    let first = f.store.rendered_entries().unwrap();
    assert_eq!(first.len(), 3);

    f.store.begin_run().unwrap();
    serialized_revs_from_repo(&f.repo, &mut f.store, 0, RefSelection::AllRefs).unwrap();
    let queue = determine_oids_to_render(&f.repo, &mut f.store).unwrap();
    assert_eq!(queue.walked, 2);
    assert!(f.store.pending_entries().unwrap().is_empty());
    let render = render_text_blobs(&f.repo, &mut f.store).unwrap();
    assert_eq!(render.rendered, 0);
    assert_eq!(f.store.rendered_entries().unwrap(), first);

    let again = run(&f.repo, &mut f.store, 0, RefSelection::AllRefs).unwrap();
    assert_eq!(again.render.rendered, 0);
    assert_eq!(f.store.rendered_entries().unwrap(), first);
}

#[test]
fn a_binary_object_is_enqueued_by_every_run_and_never_rendered() {
    let mut f = fixture();
    commit(&f.repo, &[("a.bin", b"\x00\x01\x02"), ("a.txt", b"hi\n")]);
    let first = run(&f.repo, &mut f.store, 0, RefSelection::AllRefs).unwrap();
    assert_eq!((first.render.rendered, first.render.binary), (1, 1));
    let rendered = f.store.rendered_entries().unwrap();
    assert_eq!(keys(rendered.clone()), vec![blob_id(b"hi\n")]);
    assert_eq!(f.store.is_known(&blob_id(b"\x00\x01\x02")).unwrap(), false);
    let second = run(&f.repo, &mut f.store, 0, RefSelection::AllRefs).unwrap();
    assert_eq!((second.render.rendered, second.render.binary), (0, 1));
    assert_eq!(f.store.rendered_entries().unwrap(), rendered);
}

#[test]
fn a_later_run_renders_only_what_is_new() {
    let mut f = fixture();
    commit(&f.repo, &[("a.txt", b"hi\n")]);
    run(&f.repo, &mut f.store, 0, RefSelection::AllRefs).unwrap();
    commit(&f.repo, &[("a.txt", b"hi\n"), ("b.txt", b"there\n")]);
    let report = run(&f.repo, &mut f.store, 0, RefSelection::AllRefs).unwrap();
    assert_eq!(report.revisions, 2);
    assert_eq!(report.render.rendered, 1);
    assert_eq!(f.store.rendered_entries().unwrap().len(), 2);
    assert_eq!(f.store.revisions().unwrap().len(), 2);
}

#[test]
fn no_object_is_in_two_collections_after_a_run() {
    let mut f = fixture();
    let first = tree(&f.repo, &[("a.txt", b"hi\n"), ("a.bin", b"\x00")], &["gone"]);
    commit_tree(&f.repo, first);
    commit(&f.repo, &[("a.txt", b"ho\n"), ("b.txt", b"hi\n")]);
    run(&f.repo, &mut f.store, 0, RefSelection::AllRefs).unwrap();
    assert_exclusive(&f.store);
    assert!(f.store.pending_entries().unwrap().is_empty());
    assert_eq!(f.store.rendered_entries().unwrap().len(), 2);
    assert_eq!(f.store.dead_letter_entries().unwrap().len(), 1);
    run(&f.repo, &mut f.store, 0, RefSelection::AllRefs).unwrap();
    assert_exclusive(&f.store);
}

#[test]
fn no_object_is_in_two_collections_between_the_stages() {
    let mut f = fixture();
    let first = tree(&f.repo, &[("a.txt", b"hi\n")], &["gone"]);
    commit_tree(&f.repo, first);
    f.store.begin_run().unwrap();
    assert_exclusive(&f.store);
    serialized_revs_from_repo(&f.repo, &mut f.store, 0, RefSelection::AllRefs).unwrap();
    assert_exclusive(&f.store);
    determine_oids_to_render(&f.repo, &mut f.store).unwrap();
    assert_exclusive(&f.store);
    assert_eq!(keys(f.store.pending_entries().unwrap()), vec![blob_id(b"hi\n")]);
    render_text_blobs(&f.repo, &mut f.store).unwrap();
    assert_exclusive(&f.store);
}

#[test]
fn a_dead_lettered_object_stays_dead_lettered_though_it_resolves() {
    let mut f = fixture();
    let head = commit(&f.repo, &[("a.txt", b"hi\n")]);
    let id = blob_id(b"hi\n");
    // The object was found unresolvable earlier in the run.
    f.store.record_entry(&id, b"a.txt", false).unwrap();
    let entry = TreeEntry { kind: EntryKind::Blob, id: id.clone(), name: b"a.txt".to_vec() };
    assert_eq!(enqueue_entry(&f.repo, &mut f.store, &entry).unwrap(), Enqueued::Known);
    let walk = walk_revision(&f.repo, &mut f.store, head.as_bytes()).unwrap();
    assert_eq!(walk.outcomes, vec![Enqueued::Known]);
    assert!(matches!(
        render_text_blob(&f.repo, &mut f.store, &id).unwrap(),
        BlobOutcome::NotPending
    ));
    render_text_blobs(&f.repo, &mut f.store).unwrap();
    assert_eq!(keys(f.store.dead_letter_entries().unwrap()), vec![id.clone()]);
    assert!(f.store.pending_entries().unwrap().is_empty());
    assert!(f.store.rendered_entries().unwrap().is_empty());
}

#[test]
fn the_next_run_forgets_the_dead_letters() {
    let mut f = fixture();
    commit(&f.repo, &[("a.txt", b"hi\n")]);
    let id = blob_id(b"hi\n");
    f.store.record_entry(&id, b"a.txt", false).unwrap();
    run(&f.repo, &mut f.store, 0, RefSelection::AllRefs).unwrap();
    assert!(f.store.dead_letter_entries().unwrap().is_empty());
    assert_eq!(keys(f.store.rendered_entries().unwrap()), vec![id]);
}

#[test]
fn each_entry_has_its_outcome() {
    let mut f = fixture();
    let sub = tree(&f.repo, &[("inner.txt", b"inner\n")], &[]);
    let mut builder = f.repo.treebuilder(None).unwrap();
    builder.insert("dir", sub, 0o040000).unwrap();
    builder.insert("a.txt", f.repo.blob(b"hi\n").unwrap(), 0o100644).unwrap();
    builder.insert("b.txt", f.repo.blob(b"hi\n").unwrap(), 0o100644).unwrap();
    builder.insert("gone", git2::Oid::from_str(MISSING).unwrap(), 0o160000).unwrap();
    let head = commit_tree(&f.repo, builder.write().unwrap());
    let walk = walk_revision(&f.repo, &mut f.store, head.as_bytes()).unwrap();
    let seen: Vec<(Vec<u8>, EntryKind, Enqueued)> = walk
        .entries
        .iter()
        .zip(walk.outcomes.iter())
        .map(|(entry, outcome)| (entry.name.clone(), entry.kind, *outcome))
        .collect();
    assert_eq!(
        seen,
        vec![
            (b"a.txt".to_vec(), EntryKind::Blob, Enqueued::Queued),
            (b"b.txt".to_vec(), EntryKind::Blob, Enqueued::Known),
            (b"dir".to_vec(), EntryKind::Tree, Enqueued::Skipped),
            (b"inner.txt".to_vec(), EntryKind::Blob, Enqueued::Queued),
            (b"gone".to_vec(), EntryKind::Other, Enqueued::DeadLettered),
        ]
    );
    assert_eq!(
        sorted(keys(f.store.pending_entries().unwrap())),
        sorted(vec![blob_id(b"hi\n"), blob_id(b"inner\n")])
    );
    assert!(!f.store.is_known(sub.as_bytes()).unwrap());
}

#[test]
fn entries_are_enqueued_in_their_order() {
    let mut f = fixture();
    commit(&f.repo, &[("a.txt", b"hi\n")]);
    let entries = vec![
        TreeEntry { kind: EntryKind::Tree, id: blob_id(b"hi\n"), name: b"dir".to_vec() },
        TreeEntry { kind: EntryKind::Blob, id: blob_id(b"hi\n"), name: b"second".to_vec() },
        TreeEntry { kind: EntryKind::Blob, id: blob_id(b"hi\n"), name: b"third".to_vec() },
        TreeEntry { kind: EntryKind::Blob, id: blob_id(b"nowhere\n"), name: b"n".to_vec() },
        TreeEntry { kind: EntryKind::Blob, id: b"short".to_vec(), name: b"s".to_vec() },
    ];
    let outcomes = enqueue_entries(&f.repo, &mut f.store, &entries).unwrap();
    assert_eq!(
        outcomes,
        vec![
            Enqueued::Skipped,
            Enqueued::Queued,
            Enqueued::Known,
            Enqueued::DeadLettered,
            Enqueued::DeadLettered
        ]
    );
    assert_eq!(f.store.pending_filenames(&blob_id(b"hi\n")).unwrap(), Some(b"second".to_vec()));
    assert_eq!(
        sorted(keys(f.store.dead_letter_entries().unwrap())),
        sorted(vec![blob_id(b"nowhere\n"), b"short".to_vec()])
    );
}

#[test]
fn a_rendered_object_is_not_enqueued() {
    let mut f = fixture();
    let head = commit(&f.repo, &[("a.txt", b"hi\n")]);
    f.store.record_entry(&blob_id(b"hi\n"), b"a.txt", true).unwrap();
    f.store.finish(&blob_id(b"hi\n"), Some(b"artifact")).unwrap();
    let walk = walk_revision(&f.repo, &mut f.store, head.as_bytes()).unwrap();
    assert_eq!(walk.outcomes, vec![Enqueued::Known]);
    assert!(f.store.pending_entries().unwrap().is_empty());
    assert_eq!(f.store.rendered_artifact(&blob_id(b"hi\n")).unwrap(), Some(b"artifact".to_vec()));
}

#[test]
fn a_revision_that_the_repository_lacks_fails_its_walk_only() {
    let mut f = fixture();
    let head = commit(&f.repo, &[("a.txt", b"hi\n")]);
    let missing = git2::Oid::from_str(MISSING).unwrap();
    let failed = walk_revision(&f.repo, &mut f.store, missing.as_bytes());
    assert!(matches!(failed, Err(Failure::Repository(_))));
    assert!(f.store.pending_entries().unwrap().is_empty());

    f.store.add_revision(missing.as_bytes()).unwrap();
    f.store.add_revision(head.as_bytes()).unwrap();
    let report = determine_oids_to_render(&f.repo, &mut f.store).unwrap();
    assert_eq!(report.walked, 1);
    assert_eq!(report.failures.len(), 1);
    assert!(matches!(report.failures[0], Failure::Repository(_)));
    assert_eq!(keys(f.store.pending_entries().unwrap()), vec![blob_id(b"hi\n")]);
}

#[test]
fn the_history_is_recorded_from_every_reference() {
    let mut f = fixture();
    let first = commit(&f.repo, &[("a.txt", b"1\n")]);
    let second = commit(&f.repo, &[("a.txt", b"2\n")]);
    f.repo.branch("old", &f.repo.find_commit(first).unwrap(), false).unwrap();
    let side_tree = f.repo.find_tree(tree(&f.repo, &[("s.txt", b"side\n")], &[])).unwrap();
    let author = git2::Signature::new("a", "a@example.com", &git2::Time::new(0, 0)).unwrap();
    let parent = f.repo.find_commit(first).unwrap();
    let side = f
        .repo
        .commit(Some("refs/heads/side"), &author, &author, "side", &side_tree, &[&parent])
        .unwrap();
    let found =
        serialized_revs_from_repo(&f.repo, &mut f.store, 0, RefSelection::AllRefs).unwrap();
    assert_eq!(found, 3);
    assert_eq!(
        sorted(keys(f.store.revisions().unwrap())),
        sorted(vec![
            first.as_bytes().to_vec(),
            second.as_bytes().to_vec(),
            side.as_bytes().to_vec()
        ])
    );
}

#[test]
fn the_history_of_the_head_leaves_other_branches_out() {
    let mut f = fixture();
    let first = commit(&f.repo, &[("a.txt", b"1\n")]);
    let second = commit(&f.repo, &[("a.txt", b"2\n")]);
    let side_tree = f.repo.find_tree(tree(&f.repo, &[("s.txt", b"side\n")], &[])).unwrap();
    let author = git2::Signature::new("a", "a@example.com", &git2::Time::new(0, 0)).unwrap();
    let parent = f.repo.find_commit(first).unwrap();
    f.repo
        .commit(Some("refs/heads/side"), &author, &author, "side", &side_tree, &[&parent])
        .unwrap();
    let found = serialized_revs_from_repo(&f.repo, &mut f.store, 0, RefSelection::Head).unwrap();
    assert_eq!(found, 2);
    assert_eq!(
        sorted(keys(f.store.revisions().unwrap())),
        sorted(vec![first.as_bytes().to_vec(), second.as_bytes().to_vec()])
    );
}

#[test]
fn the_depth_bounds_the_walk_over_the_history() {
    let mut f = fixture();
    commit(&f.repo, &[("a.txt", b"1\n")]);
    commit(&f.repo, &[("a.txt", b"2\n")]);
    let head = commit(&f.repo, &[("a.txt", b"3\n")]);
    assert_eq!(serialized_revs_from_repo(&f.repo, &mut f.store, 1, RefSelection::Head).unwrap(), 1);
    assert_eq!(keys(f.store.revisions().unwrap()), vec![head.as_bytes().to_vec()]);
    assert_eq!(serialized_revs_from_repo(&f.repo, &mut f.store, 2, RefSelection::Head).unwrap(), 2);
    assert_eq!(f.store.revisions().unwrap().len(), 2);
    assert_eq!(serialized_revs_from_repo(&f.repo, &mut f.store, 5, RefSelection::Head).unwrap(), 3);
    assert_eq!(serialized_revs_from_repo(&f.repo, &mut f.store, 0, RefSelection::Head).unwrap(), 3);
    assert_eq!(f.store.revisions().unwrap().len(), 3);
}

#[test]
fn a_run_of_depth_one_renders_the_tip_only() {
    let mut f = fixture();
    commit(&f.repo, &[("a.txt", b"1\n")]);
    commit(&f.repo, &[("a.txt", b"2\n")]);
    let report = run(&f.repo, &mut f.store, 1, RefSelection::Head).unwrap();
    assert_eq!(report.revisions, 1);
    assert_eq!(keys(f.store.rendered_entries().unwrap()), vec![blob_id(b"2\n")]);
}

#[test]
fn a_repository_without_a_head_has_no_history() {
    let mut f = fixture();
    assert_eq!(
        serialized_revs_from_repo(&f.repo, &mut f.store, 0, RefSelection::AllRefs).unwrap(),
        0
    );
    let failed = serialized_revs_from_repo(&f.repo, &mut f.store, 0, RefSelection::Head);
    assert!(matches!(failed, Err(Failure::Repository(_))));
    assert!(f.store.revisions().unwrap().is_empty());
}

#[test]
fn binary_content_is_not_rendered() {
    assert!(matches!(render_content(b"\x00\x01", true, b"a.bin"), Rendering::Binary));
    match render_content(b"hi\n", false, b"a.txt\0a.md") {
        Rendering::Rendered { artifact, ambiguous } => {
            assert!(ambiguous);
            assert_eq!(artifact, render_artifact(b"hi\n", &vec![b"a.txt".to_vec()]).unwrap());
        }
        other => panic!("not rendered: {:?}", other),
    }
    match render_content(b"hi\n", false, b"a.txt") {
        Rendering::Rendered { ambiguous, .. } => assert!(!ambiguous),
        other => panic!("not rendered: {:?}", other),
    }
}

#[test]
fn the_work_on_a_blob_ends_as_the_repository_answered() {
    let mut f = fixture();
    for id in [b"text", b"bin-", b"gone"].iter() {
        f.store.record_entry(*id, b"a.txt", true).unwrap();
    }
    let text = Ok(Blob { content: b"hi\n".to_vec(), binary: false });
    let outcome = finish_blob(&mut f.store, b"text", b"a.txt", text).unwrap();
    assert!(matches!(outcome, BlobOutcome::Rendered { ambiguous: false }));
    let binary = Ok(Blob { content: b"\x00".to_vec(), binary: true });
    assert!(matches!(
        finish_blob(&mut f.store, b"bin-", b"a.txt", binary).unwrap(),
        BlobOutcome::Binary
    ));
    let gone = Err(Failure::Repository("gone".to_string()));
    assert!(matches!(
        finish_blob(&mut f.store, b"gone", b"a.txt", gone).unwrap(),
        BlobOutcome::Unreadable(Failure::Repository(said)) if said == "gone"
    ));
    let unknown = Ok(Blob { content: b"hi\n".to_vec(), binary: false });
    assert!(matches!(
        finish_blob(&mut f.store, b"none", b"a.txt", unknown).unwrap(),
        BlobOutcome::NotPending
    ));
    assert!(f.store.pending_entries().unwrap().is_empty());
    assert_eq!(keys(f.store.rendered_entries().unwrap()), vec![b"text".to_vec()]);
    assert_eq!(
        f.store.rendered_artifact(b"text").unwrap().unwrap(),
        render_artifact(b"hi\n", &vec![b"a.txt".to_vec()]).unwrap()
    );
}

#[test]
fn a_pending_object_that_the_repository_lacks_is_dropped() {
    let mut f = fixture();
    commit(&f.repo, &[("a.txt", b"hi\n")]);
    let missing = git2::Oid::from_str(MISSING).unwrap().as_bytes().to_vec();
    f.store.record_entry(&missing, b"a.txt", true).unwrap();
    f.store.record_entry(&blob_id(b"hi\n"), b"a.txt", true).unwrap();
    assert!(matches!(
        render_text_blob(&f.repo, &mut f.store, &missing).unwrap(),
        BlobOutcome::Unreadable(Failure::Repository(_))
    ));
    assert_eq!(f.store.is_known(&missing).unwrap(), false);
    f.store.record_entry(&missing, b"a.txt", true).unwrap();
    let report = render_text_blobs(&f.repo, &mut f.store).unwrap();
    assert_eq!(report.rendered, 1);
    assert_eq!(report.unreadable.len(), 1);
    assert!(report.failures.is_empty());
    assert!(f.store.pending_entries().unwrap().is_empty());
    assert_eq!(keys(f.store.rendered_entries().unwrap()), vec![blob_id(b"hi\n")]);
}

#[test]
fn a_listing_shows_trees_and_files_and_schedules_each_tree_once() {
    let f = fixture();
    let sub = tree(&f.repo, &[("inner.txt", b"inner\n")], &[]);
    let mut builder = f.repo.treebuilder(None).unwrap();
    builder.insert("dir", sub, 0o040000).unwrap();
    builder.insert("twin", sub, 0o040000).unwrap();
    builder.insert("a.txt", f.repo.blob(b"hi\n").unwrap(), 0o100644).unwrap();
    builder.insert("a.bin", f.repo.blob(b"\x00\x01").unwrap(), 0o100644).unwrap();
    builder.insert("gone", git2::Oid::from_str(MISSING).unwrap(), 0o160000).unwrap();
    let root = builder.write().unwrap();
    let mut scheduled = Scheduled::new();
    let topology = vec!["up".to_string()];
    let listing = list_tree(&f.repo, root.as_bytes(), &topology, &mut scheduled).unwrap();
    let names: Vec<Vec<u8>> = listing.entries.iter().map(|entry| entry.name.clone()).collect();
    assert_eq!(
        names,
        vec![b"a.bin".to_vec(), b"a.txt".to_vec(), b"dir".to_vec(), b"gone".to_vec(), b"twin".to_vec()]
    );
    let sub_id = ObjectId::from_bytes(sub.as_bytes()).unwrap();
    assert_eq!(
        listing.objects,
        vec![
            Some(RenderableTreeObject::BinaryFile {
                oid: ObjectId::from_bytes(&blob_id(b"\x00\x01")).unwrap(),
                name: "a.bin".to_string(),
                topography: topology.clone(),
            }),
            Some(RenderableTreeObject::TextFile {
                oid: ObjectId::from_bytes(&blob_id(b"hi\n")).unwrap(),
                name: "a.txt".to_string(),
                topography: topology.clone(),
            }),
            Some(RenderableTreeObject::Tree {
                oid: sub_id,
                name: "dir".to_string(),
                topography: topology.clone(),
            }),
            None,
            Some(RenderableTreeObject::Tree {
                oid: sub_id,
                name: "twin".to_string(),
                topography: topology.clone(),
            }),
        ]
    );
    assert_eq!(listing.fresh, vec![false, false, true, false, false]);
    assert_eq!(listing.binary, vec![Some(true), Some(false), None, None, None]);
    // The tree is scheduled now: another listing finds nothing new.
    let again = list_tree(&f.repo, root.as_bytes(), &topology, &mut scheduled).unwrap();
    assert_eq!(again.fresh, vec![false; 5]);
    assert!(!scheduled.schedule(sub.as_bytes()));
}

#[test]
fn a_tree_that_the_repository_lacks_cannot_be_listed() {
    let f = fixture();
    let mut scheduled = Scheduled::new();
    let missing = git2::Oid::from_str(MISSING).unwrap();
    let failed = list_tree(&f.repo, missing.as_bytes(), &Vec::new(), &mut scheduled);
    assert!(matches!(failed, Err(Failure::Repository(_))));
}

#[test]
fn an_entry_is_shown_by_its_kind() {
    let id = blob_id(b"hi\n");
    let oid = ObjectId::from_bytes(&id).unwrap();
    let mut scheduled = Scheduled::new();
    let topology = vec!["a".to_string(), "b".to_string()];
    let blob = TreeEntry { kind: EntryKind::Blob, id: id.clone(), name: b"f".to_vec() };
    assert_eq!(
        renderable_tree_object(&blob, Some(false), &mut scheduled, &topology),
        (
            Some(RenderableTreeObject::TextFile {
                oid,
                name: "f".to_string(),
                topography: topology.clone()
            }),
            false
        )
    );
    assert_eq!(
        renderable_tree_object(&blob, Some(true), &mut scheduled, &topology),
        (
            Some(RenderableTreeObject::BinaryFile {
                oid,
                name: "f".to_string(),
                topography: topology.clone()
            }),
            false
        )
    );
    assert_eq!(renderable_tree_object(&blob, None, &mut scheduled, &topology), (None, false));
    let tree = TreeEntry { kind: EntryKind::Tree, id: id.clone(), name: b"d\xff".to_vec() };
    let shown = (
        Some(RenderableTreeObject::Tree {
            oid,
            name: "d\u{fffd}".to_string(),
            topography: topology.clone(),
        }),
        true,
    );
    assert_eq!(renderable_tree_object(&tree, None, &mut scheduled, &topology), shown);
    assert_eq!(renderable_tree_object(&tree, None, &mut scheduled, &topology).1, false);
    let other = TreeEntry { kind: EntryKind::Other, id: id.clone(), name: b"s".to_vec() };
    assert_eq!(renderable_tree_object(&other, None, &mut scheduled, &topology), (None, false));
    let short = TreeEntry { kind: EntryKind::Tree, id: b"short".to_vec(), name: b"s".to_vec() };
    assert_eq!(renderable_tree_object(&short, None, &mut scheduled, &topology), (None, false));
    assert!(scheduled.schedule(b"short"));
}

#[test]
fn a_listing_is_made_of_the_entries_and_of_what_was_said_of_them() {
    let id = blob_id(b"hi\n");
    let oid = ObjectId::from_bytes(&id).unwrap();
    let other = blob_id(b"there\n");
    let entry = |kind: EntryKind, id: &Vec<u8>, name: &str| TreeEntry {
        kind,
        id: id.clone(),
        name: name.as_bytes().to_vec(),
    };
    let entries = vec![
        entry(EntryKind::Tree, &id, "d"),
        entry(EntryKind::Blob, &id, "text"),
        entry(EntryKind::Blob, &id, "bin"),
        entry(EntryKind::Blob, &id, "gone"),
        entry(EntryKind::Tree, &id, "twin"),
        entry(EntryKind::Tree, &other, "known"),
        entry(EntryKind::Other, &id, "sub"),
        entry(EntryKind::Blob, &id, "unasked"),
    ];
    // Nothing was said of the last entry.
    let binary = vec![Some(true), Some(false), Some(true), None, None, None, Some(false)];
    let mut scheduled = Scheduled::new();
    assert!(scheduled.schedule(&other));
    let topology = vec!["up".to_string()];
    let listing = listing_of(entries, binary.clone(), &topology, &mut scheduled);
    assert_eq!(listing.entries.len(), 8);
    assert_eq!(listing.binary, binary);
    assert_eq!(listing.fresh, vec![true, false, false, false, false, false, false, false]);
    let kinds: Vec<Option<&str>> = listing
        .objects
        .iter()
        .map(|object| match object {
            Some(RenderableTreeObject::Tree { .. }) => Some("tree"),
            Some(RenderableTreeObject::TextFile { .. }) => Some("text"),
            Some(RenderableTreeObject::BinaryFile { .. }) => Some("binary"),
            None => None,
        })
        .collect();
    assert_eq!(
        kinds,
        vec![Some("tree"), Some("text"), Some("binary"), None, Some("tree"), Some("tree"), None, None]
    );
    assert_eq!(
        listing.objects[1],
        Some(RenderableTreeObject::TextFile {
            oid,
            name: "text".to_string(),
            topography: topology.clone()
        })
    );
    assert!(!scheduled.schedule(&id));
    assert!(!scheduled.schedule(&other));
}

#[test]
fn a_run_that_the_repository_ends_has_recorded_nothing_else() {
    let mut f = fixture();
    f.store.record_entry(b"done", b"a.txt", true).unwrap();
    f.store.finish(b"done", Some(b"artifact")).unwrap();
    f.store.record_entry(b"waiting", b"b.txt", true).unwrap();
    f.store.record_entry(b"dead", b"c.txt", false).unwrap();
    // The repository has no head to start the walk from.
    let failed = run(&f.repo, &mut f.store, 0, RefSelection::Head);
    assert!(matches!(failed, Err(Failure::Repository(_))));
    assert_eq!(
        f.store.rendered_entries().unwrap(),
        vec![(b"done".to_vec(), b"artifact".to_vec())]
    );
    assert!(f.store.pending_entries().unwrap().is_empty());
    assert!(f.store.dead_letter_entries().unwrap().is_empty());
    assert!(f.store.revisions().unwrap().is_empty());
}

#[test]
fn a_failure_carries_what_the_repository_said() {
    let mut f = fixture();
    let missing = git2::Oid::from_str(MISSING).unwrap();
    let said = f.repo.find_commit(missing).err().unwrap().to_string();
    match walk_revision(&f.repo, &mut f.store, missing.as_bytes()) {
        Err(Failure::Repository(text)) => assert_eq!(text, said),
        other => panic!("no failure of the repository: {:?}", other.map(|walk| walk.outcomes)),
    }
}
