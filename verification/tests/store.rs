use mona::account::{Account, Group};
use mona::crypto::Session;
use mona::error::{Error, ErrorKind};
use mona::git_creds::{Credentials, Remote};
use mona::git_db::{sidecar_name, DB};
use mona::manifest::{Entry, EntryRequest, Manifest};
use mona::secret_meta::Meta;
use mona::state::State;
use mona::sync::{SyncAction, SyncEvent};
use mona::tree::{StoredFile, WorkTree};

fn session() -> Session {
    Session { site_id: 1, master_key: vec![42u8; 32] }
}

fn request(path: &str, tags: &[&str]) -> EntryRequest {
    EntryRequest { path: String::from(path), tags: tags.iter().map(|t| String::from(*t)).collect() }
}

fn new_store(sess: &Session) -> DB {
    let (db, _) = DB::init(WorkTree::new(), sess).unwrap();
    db
}

fn file_names(db: &DB) -> Vec<String> {
    let mut names: Vec<String> = db.tree.files.iter().map(|f| f.name.clone()).collect();
    names.sort();
    names
}

fn paths(entries: &[Entry]) -> Vec<String> {
    entries.iter().map(|e| e.path.clone()).collect()
}

#[test]
fn init_creates_the_required_files_in_order() {
    let sess = session();
    let (db, staged) = DB::init(WorkTree::new(), &sess).unwrap();
    assert_eq!(
        staged,
        vec![
            "burnt_nonces",
            "manifest",
            "manifest.toml",
            "burnt_nonces",
            "remotes",
            "remotes.toml",
            "burnt_nonces"
        ]
    );
    assert_eq!(file_names(&db), vec!["burnt_nonces", "manifest", "manifest.toml", "remotes", "remotes.toml"]);
    assert!(db.list(&sess).unwrap().is_empty());
    assert!(db.remotes(&sess).unwrap().remotes.is_empty());
    let ledger = db.burnt_nonces().unwrap();
    assert_eq!(ledger.len(), 2);
    let nonce_of = |name: &str| {
        let meta = Meta::from_toml_bytes(db.tree.get(name).unwrap()).unwrap();
        mona::encoding::decode(&meta.aead.nonce).unwrap()
    };
    assert_eq!(ledger[0], nonce_of("manifest.toml"));
    assert_eq!(ledger[1], nonce_of("remotes.toml"));
    assert_ne!(ledger[0], ledger[1]);
}

#[test]
fn init_with_only_the_ledger_missing_creates_it_empty() {
    let sess = session();
    let mut db = new_store(&sess);
    db.tree.remove("burnt_nonces");
    let staged = db.ensure_required_files_exist(&sess).unwrap();
    assert_eq!(staged, vec!["burnt_nonces"]);
    assert_eq!(db.tree.get("burnt_nonces"), Some(&Vec::new()));
    assert!(db.list(&sess).unwrap().is_empty());
}

#[test]
fn init_leaves_a_complete_store_alone() {
    let sess = session();
    let mut db = new_store(&sess);
    db.put(&request("a", &[]), b"1", &sess).unwrap();
    let before: Vec<(String, Vec<u8>)> =
        db.tree.files.iter().map(|f| (f.name.clone(), f.data.clone())).collect();
    let staged = db.ensure_required_files_exist(&sess).unwrap();
    assert!(staged.is_empty());
    let after: Vec<(String, Vec<u8>)> =
        db.tree.files.iter().map(|f| (f.name.clone(), f.data.clone())).collect();
    assert_eq!(before, after);
}

#[test]
fn init_restores_only_what_is_missing() {
    let sess = session();
    let mut db = new_store(&sess);
    db.put(&request("a", &[]), b"1", &sess).unwrap();
    db.tree.remove("remotes");
    let staged = db.ensure_required_files_exist(&sess).unwrap();
    assert_eq!(staged, vec!["remotes", "remotes.toml", "burnt_nonces"]);
    assert!(db.remotes(&sess).unwrap().remotes.is_empty());
    assert_eq!(db.get("a", &sess).unwrap().data, b"1".to_vec());
}

#[test]
fn end_to_end_put_get_ls_rm() {
    let sess = session();
    let mut db = new_store(&sess);

    db.put(&request("secret/bank", &["finance"]), b"1234", &sess).unwrap();

    let got = db.get("secret/bank", &sess).unwrap();
    assert_eq!(got.data, b"1234".to_vec());

    let listed = db.list(&sess).unwrap();
    assert_eq!(listed.len(), 1);
    assert_eq!(listed[0].path, "secret/bank");
    assert_eq!(listed[0].tags, vec![String::from("finance")]);

    db.rm("secret/bank", &sess).unwrap();
    assert!(db.list(&sess).unwrap().is_empty());
}

#[test]
fn put_twice_keeps_one_entry_with_the_last_data() {
    let sess = session();
    let mut db = new_store(&sess);
    db.put(&request("secret/bank", &["one"]), b"data1", &sess).unwrap();
    let first_name = db.list(&sess).unwrap()[0].garbled_path.clone();
    db.put(&request("secret/bank", &["two", "three"]), b"data2", &sess).unwrap();

    let listed = db.list(&sess).unwrap();
    assert_eq!(paths(&listed), vec!["secret/bank"]);
    assert_eq!(listed[0].tags, vec![String::from("two"), String::from("three")]);
    assert_eq!(db.get("secret/bank", &sess).unwrap().data, b"data2".to_vec());

    assert!(!db.tree.contains(&first_name));
    assert!(!db.tree.contains(&sidecar_name(&first_name)));
    assert_ne!(listed[0].garbled_path, first_name);
    assert_eq!(db.tree.len(), 7);
}

#[test]
fn replaced_entry_moves_to_the_end() {
    let sess = session();
    let mut db = new_store(&sess);
    db.put(&request("a", &[]), b"1", &sess).unwrap();
    db.put(&request("b", &[]), b"2", &sess).unwrap();
    db.put(&request("c", &[]), b"3", &sess).unwrap();
    assert_eq!(paths(&db.list(&sess).unwrap()), vec!["a", "b", "c"]);
    db.put(&request("a", &[]), b"4", &sess).unwrap();
    assert_eq!(paths(&db.list(&sess).unwrap()), vec!["b", "c", "a"]);
    assert_eq!(db.get("a", &sess).unwrap().data, b"4".to_vec());
    assert_eq!(db.get("b", &sess).unwrap().data, b"2".to_vec());
    assert_eq!(db.get("c", &sess).unwrap().data, b"3".to_vec());
}

#[test]
fn get_of_a_path_never_put_is_not_found() {
    let sess = session();
    let mut db = new_store(&sess);
    let missing = db.get("never", &sess).map(|p| p.data);
    assert_eq!(missing, Err(Error::NotFound));
    db.put(&request("other", &[]), b"x", &sess).unwrap();
    let missing = db.get("never", &sess).map(|p| p.data);
    assert_eq!(missing, Err(Error::NotFound));
    assert_eq!(Error::NotFound.kind(), ErrorKind::NotFound);
    assert!(Error::NotFound.is_not_found());
}

#[test]
fn get_with_another_key_is_an_authentication_failure() {
    let sess = session();
    let mut db = new_store(&sess);
    db.put(&request("a", &[]), b"x", &sess).unwrap();
    let other = Session { site_id: 1, master_key: vec![43u8; 32] };
    let failed = db.get("a", &other).map(|p| p.data);
    assert_eq!(failed, Err(Error::Authentication));
    let failed = db.get("never", &other).map(|p| p.data);
    assert_eq!(failed, Err(Error::Authentication));
    assert!(matches!(db.list(&other), Err(Error::Authentication)));
}

#[test]
fn get_of_a_tampered_sidecar_is_an_authentication_failure() {
    let sess = session();
    let mut db = new_store(&sess);
    db.put(&request("a", &[]), b"x", &sess).unwrap();
    let name = db.list(&sess).unwrap()[0].garbled_path.clone();
    let side = sidecar_name(&name);
    let text = String::from_utf8(db.tree.get(&side).unwrap().clone()).unwrap();
    let changed = text.replace("iters = 100000", "iters = 100001");
    assert_ne!(text, changed);
    db.tree.put(&side, changed.into_bytes());
    let failed = db.get("a", &sess).map(|p| p.data);
    assert_eq!(failed, Err(Error::Authentication));
}

#[test]
fn get_of_a_deleted_file_is_a_missing_file() {
    let sess = session();
    let mut db = new_store(&sess);
    db.put(&request("a", &[]), b"x", &sess).unwrap();
    let name = db.list(&sess).unwrap()[0].garbled_path.clone();
    db.tree.remove(&name);
    let failed = db.get("a", &sess).map(|p| p.data);
    assert_eq!(failed, Err(Error::MissingFile));
    assert_eq!(db.rm("a", &sess), Err(Error::MissingFile));
    assert_eq!(db.put(&request("a", &[]), b"y", &sess), Err(Error::MissingFile));
    assert_eq!(db.list(&sess).unwrap().len(), 1);
}

#[test]
fn rm_deletes_the_row_and_both_files() {
    let sess = session();
    let mut db = new_store(&sess);
    db.put(&request("a", &[]), b"1", &sess).unwrap();
    db.put(&request("b", &[]), b"2", &sess).unwrap();
    let listed = db.list(&sess).unwrap();
    let name = listed[0].garbled_path.clone();
    assert!(db.tree.contains(&name));
    assert!(db.tree.contains(&sidecar_name(&name)));

    db.rm("a", &sess).unwrap();

    let missing = db.get("a", &sess).map(|p| p.data);
    assert_eq!(missing, Err(Error::NotFound));
    assert!(!db.tree.contains(&name));
    assert!(!db.tree.contains(&sidecar_name(&name)));
    assert_eq!(paths(&db.list(&sess).unwrap()), vec!["b"]);
    assert_eq!(db.get("b", &sess).unwrap().data, b"2".to_vec());
}

#[test]
fn rm_of_a_path_never_put_is_not_found() {
    let sess = session();
    let mut db = new_store(&sess);
    assert_eq!(db.rm("never", &sess), Err(Error::NotFound));
    db.put(&request("a", &[]), b"1", &sess).unwrap();
    db.rm("a", &sess).unwrap();
    assert_eq!(db.rm("a", &sess), Err(Error::NotFound));
}

fn store_with_rows(sess: &Session, rows: Vec<Entry>) -> DB {
    let mut db = new_store(sess);
    let meta = Meta::generate_secure_meta(&mut db).unwrap();
    let bytes = Manifest { entries: rows }.to_toml_bytes().unwrap();
    let sealed = mona::crypto::encrypt(&sess.master_key, &bytes, &meta).unwrap();
    db.tree.put("manifest", sealed);
    db.tree.put("manifest.toml", meta.to_toml_bytes().unwrap());
    db
}

#[test]
fn two_rows_for_one_path_are_reported() {
    let sess = session();
    let row = |g: &str| Entry { path: String::from("a"), tags: vec![], garbled_path: String::from(g) };
    let mut db = store_with_rows(&sess, vec![row("AAAAAAAAAAAAAAAA"), row("BBBBBBBBBBBBBBBB")]);
    assert_eq!(db.list(&sess).unwrap().len(), 2);
    assert_eq!(db.rm("a", &sess), Err(Error::DuplicateEntry));
    assert_eq!(db.put(&request("a", &[]), b"x", &sess), Err(Error::DuplicateEntry));
    assert_eq!(Error::DuplicateEntry.kind(), ErrorKind::Integrity);
    assert_eq!(db.list(&sess).unwrap().len(), 2);
}

#[test]
fn a_row_that_names_a_reserved_file_is_refused() {
    let sess = session();
    let row = Entry { path: String::from("a"), tags: vec![], garbled_path: String::from("manifest") };
    let mut db = store_with_rows(&sess, vec![row]);
    assert_eq!(db.rm("a", &sess), Err(Error::Malformed));
    assert_eq!(db.put(&request("a", &[]), b"x", &sess), Err(Error::Malformed));
    assert!(db.tree.contains("manifest"));
    assert!(DB::is_reserved("burnt_nonces"));
    assert!(DB::is_reserved("manifest"));
    assert!(DB::is_reserved("manifest.toml"));
    assert!(DB::is_reserved("remotes"));
    assert!(DB::is_reserved("remotes.toml"));
    assert!(!DB::is_reserved("manifest.tom"));
    assert!(!DB::is_reserved("AAAAAAAAAAAAAAAA"));
}

#[test]
fn invalid_path_is_refused_and_nothing_changes() {
    let sess = session();
    let mut db = new_store(&sess);
    let before = db.tree.len();
    let ledger = db.burnt_nonces().unwrap();
    assert_eq!(db.put(&request("", &[]), b"x", &sess), Err(Error::InvalidPath));
    assert_eq!(db.put(&request("a\nb", &[]), b"x", &sess), Err(Error::InvalidPath));
    assert_eq!(db.tree.len(), before);
    assert_eq!(db.burnt_nonces().unwrap(), ledger);
}

#[test]
fn failed_put_leaves_the_tree_as_it_was() {
    let sess = session();
    let mut db = new_store(&sess);
    db.put(&request("a", &[]), b"1", &sess).unwrap();
    db.tree.remove("burnt_nonces");
    let before: Vec<(String, Vec<u8>)> =
        db.tree.files.iter().map(|f| (f.name.clone(), f.data.clone())).collect();
    assert_eq!(db.put(&request("b", &[]), b"2", &sess), Err(Error::MissingFile));
    assert_eq!(db.rm("a", &sess), Err(Error::MissingFile));
    let after: Vec<(String, Vec<u8>)> =
        db.tree.files.iter().map(|f| (f.name.clone(), f.data.clone())).collect();
    assert_eq!(before, after);
}

#[test]
fn stored_files_do_not_show_the_logical_path_or_the_data() {
    let sess = session();
    let mut db = new_store(&sess);
    db.put(&request("secret/bank", &["finance"]), b"my-very-secret-data", &sess).unwrap();
    for f in db.tree.files.iter() {
        let text = String::from_utf8_lossy(&f.data).into_owned();
        assert!(!f.name.contains("secret"));
        assert!(!text.contains("secret/bank"));
        assert!(!text.contains("finance"));
        assert!(!text.contains("my-very-secret-data"));
    }
    let name = db.list(&sess).unwrap()[0].garbled_path.clone();
    assert_eq!(name.len(), 16);
    assert!(name.chars().all(|c| c.is_ascii_alphanumeric() || c == '-' || c == '_'));
}

#[test]
fn every_encryption_uses_a_new_nonce() {
    let sess = session();
    let mut db = new_store(&sess);
    for i in 0..5u8 {
        db.put(&request(&format!("entry/{}", i), &[]), &[i], &sess).unwrap();
    }
    db.put(&request("entry/0", &[]), b"again", &sess).unwrap();
    db.rm("entry/1", &sess).unwrap();

    let ledger = db.burnt_nonces().unwrap();
    assert_eq!(ledger.len(), 2 + 2 * 6 + 1);
    for i in 0..ledger.len() {
        assert_eq!(ledger[i].len(), 12);
        for j in 0..i {
            assert_ne!(ledger[i], ledger[j]);
        }
    }

    let mut used: Vec<Vec<u8>> = Vec::new();
    for f in db.tree.files.iter() {
        if f.name.ends_with(".toml") {
            let meta = Meta::from_toml_bytes(&f.data).unwrap();
            used.push(mona::encoding::decode(&meta.aead.nonce).unwrap());
        }
    }
    assert_eq!(used.len(), 6);
    for i in 0..used.len() {
        assert!(ledger.contains(&used[i]));
        for j in 0..i {
            assert_ne!(used[i], used[j]);
        }
    }
}

#[test]
fn burning_a_burnt_nonce_fails() {
    let sess = session();
    let mut db = new_store(&sess);
    assert_eq!(db.burn_nonce(b"nonce-of-12b"), Ok(()));
    let ledger = db.burnt_nonces().unwrap();
    assert_eq!(ledger.last().unwrap(), &b"nonce-of-12b".to_vec());
    assert_eq!(db.burn_nonce(b"nonce-of-12b"), Err(Error::NonceAlreadyBurnt));
    assert_eq!(db.burn_nonce(b"nonce-of-12b"), Err(Error::NonceAlreadyBurnt));
    assert_eq!(db.burnt_nonces().unwrap(), ledger);
    let first = ledger[0].clone();
    assert_eq!(db.burn_nonce(&first), Err(Error::NonceAlreadyBurnt));
    assert_eq!(db.burn_nonce(b"another-nonce"), Ok(()));
    assert_eq!(db.burnt_nonces().unwrap().len(), ledger.len() + 1);
}

#[test]
fn generated_nonce_is_burnt() {
    let sess = session();
    let mut db = new_store(&sess);
    let before = db.burnt_nonces().unwrap();
    let nonce = db.generate_nonce().unwrap();
    assert_eq!(nonce.len(), 12);
    assert!(!before.contains(&nonce));
    let after = db.burnt_nonces().unwrap();
    assert_eq!(after.len(), before.len() + 1);
    assert_eq!(after.last().unwrap(), &nonce);
    assert_eq!(db.burn_nonce(&nonce), Err(Error::NonceAlreadyBurnt));
}

#[test]
fn nonce_needs_a_ledger() {
    let mut db = DB { tree: WorkTree::new() };
    assert_eq!(db.generate_nonce(), Err(Error::MissingFile));
    assert_eq!(db.burn_nonce(b"x"), Err(Error::MissingFile));
    assert!(matches!(Meta::generate_secure_meta(&mut db), Err(Error::MissingFile)));
    db.tree.put("burnt_nonces", b"???\n".to_vec());
    assert_eq!(db.generate_nonce(), Err(Error::BadEncoding));
}

#[test]
fn secure_meta_has_fresh_salt_and_nonce() {
    let sess = session();
    let mut db = new_store(&sess);
    let a = Meta::generate_secure_meta(&mut db).unwrap();
    let b = Meta::generate_secure_meta(&mut db).unwrap();
    assert_ne!(a.aead.nonce, b.aead.nonce);
    assert_ne!(a.pbkdf2.salt, b.pbkdf2.salt);
    assert_eq!(mona::encoding::decode(&a.aead.nonce).unwrap().len(), 12);
    assert_eq!(mona::encoding::decode(&a.pbkdf2.salt).unwrap().len(), 12);
    assert_eq!(a.pbkdf2.iters, 100_000);
    assert_eq!(a.aead.keylen, 256);
    assert_eq!(a.version, "0.0.1");
    let ledger = db.burnt_nonces().unwrap();
    assert_eq!(&mona::encoding::decode(&b.aead.nonce).unwrap(), ledger.last().unwrap());
}

#[test]
fn fresh_name_is_not_in_the_tree() {
    let sess = session();
    let db = new_store(&sess);
    let name = db.fresh_name().unwrap();
    assert_eq!(name.len(), 16);
    assert!(!db.tree.contains(&name));
    assert_ne!(db.fresh_name().unwrap(), name);
}

fn remote(name: &str) -> Remote {
    Remote {
        name: String::from(name),
        url: format!("https://example.com/{}.git", name),
        credentials: Credentials { username: String::from("me"), password: String::from("pw") },
    }
}

#[test]
fn remotes_are_added_and_removed() {
    let sess = session();
    let mut db = new_store(&sess);
    db.add_remote(&remote("origin"), &sess).unwrap();
    db.add_remote(&remote("backup"), &sess).unwrap();
    let names: Vec<String> = db.remotes(&sess).unwrap().remotes.iter().map(|r| r.name.clone()).collect();
    assert_eq!(names, vec!["origin", "backup"]);
    assert_eq!(db.remotes(&sess).unwrap().remotes[0].url, "https://example.com/origin.git");
    assert_eq!(db.remotes(&sess).unwrap().remotes[0].credentials.password, "pw");

    db.remove_remote("origin", &sess).unwrap();
    let names: Vec<String> = db.remotes(&sess).unwrap().remotes.iter().map(|r| r.name.clone()).collect();
    assert_eq!(names, vec!["backup"]);
    db.remove_remote("absent", &sess).unwrap();
    assert_eq!(db.remotes(&sess).unwrap().remotes.len(), 1);

    let other = Session { site_id: 1, master_key: vec![1u8; 32] };
    assert_eq!(db.add_remote(&remote("x"), &other), Err(Error::Authentication));
    for f in db.tree.files.iter() {
        assert!(!String::from_utf8_lossy(&f.data).contains("example.com"));
    }
}

#[test]
fn sync_begins_with_the_first_remote() {
    let sess = session();
    let mut db = new_store(&sess);
    let (remotes, state) = db.sync(&sess).unwrap();
    assert!(remotes.remotes.is_empty());
    assert_eq!(state.action(), SyncAction::StageAll);

    db.add_remote(&remote("origin"), &sess).unwrap();
    db.add_remote(&remote("backup"), &sess).unwrap();
    let (remotes, state) = db.sync(&sess).unwrap();
    assert_eq!(remotes.remotes.len(), 2);
    assert_eq!(state.remotes, 2);
    assert_eq!(state.action(), SyncAction::Fetch(0));
    assert_eq!(state.step(SyncEvent::Fetched { has_branch: false }).action(), SyncAction::Fetch(1));
}

fn copy_tree(tree: &WorkTree) -> WorkTree {
    let mut copy = WorkTree::new();
    for f in tree.files.iter() {
        copy.put(&f.name, f.data.clone());
    }
    copy
}

#[test]
fn two_stores_share_what_is_synchronised() {
    let sess = session();

    let mut a = new_store(&sess);
    a.add_remote(&remote("origin"), &sess).unwrap();
    a.put(&request("secret/bank", &["finance"]), b"1234", &sess).unwrap();

    let (remotes, mut state) = a.sync(&sess).unwrap();
    assert_eq!(remotes.remotes[0].name, "origin");
    let mut origin: Option<WorkTree> = None;
    let mut actions: Vec<SyncAction> = Vec::new();
    while !state.is_done() {
        let action = state.action();
        actions.push(action);
        let event = match action {
            SyncAction::Fetch(_) => SyncEvent::Fetched { has_branch: origin.is_some() },
            SyncAction::StageAll => SyncEvent::Staged { files_changed: a.tree.len() },
            SyncAction::Commit => SyncEvent::Committed,
            SyncAction::CheckoutHead => SyncEvent::CheckedOut,
            SyncAction::Push(_) => {
                origin = Some(copy_tree(&a.tree));
                SyncEvent::Pushed
            }
            _ => SyncEvent::Failed,
        };
        state = state.step(event);
    }
    assert_eq!(state.outcome(), Some(Ok(())));
    assert_eq!(
        actions,
        vec![
            SyncAction::Fetch(0),
            SyncAction::StageAll,
            SyncAction::Commit,
            SyncAction::CheckoutHead,
            SyncAction::Push(0)
        ]
    );

    let mut b = DB { tree: WorkTree::new() };
    let mut state = mona::sync::Synchronizer::start(1);
    let mut actions: Vec<SyncAction> = Vec::new();
    while !state.is_done() {
        let action = state.action();
        actions.push(action);
        let event = match action {
            SyncAction::Fetch(_) => SyncEvent::Fetched { has_branch: origin.is_some() },
            SyncAction::Merge(_) => {
                b.tree = copy_tree(origin.as_ref().unwrap());
                SyncEvent::Merged { conflicts: false, files_changed: b.tree.len() }
            }
            SyncAction::CommitMerge(_) => SyncEvent::Committed,
            SyncAction::StageAll => SyncEvent::Staged { files_changed: 0 },
            SyncAction::CheckoutHead => SyncEvent::CheckedOut,
            SyncAction::Push(_) => SyncEvent::Pushed,
            _ => SyncEvent::Failed,
        };
        state = state.step(event);
    }
    assert_eq!(state.outcome(), Some(Ok(())));
    assert_eq!(
        actions,
        vec![
            SyncAction::Fetch(0),
            SyncAction::Merge(0),
            SyncAction::CommitMerge(0),
            SyncAction::StageAll,
            SyncAction::CheckoutHead,
            SyncAction::Push(0)
        ]
    );

    assert_eq!(b.get("secret/bank", &sess).unwrap().data, b"1234".to_vec());
    assert_eq!(b.list(&sess).unwrap()[0].tags, vec![String::from("finance")]);
}

#[test]
fn work_tree_keeps_one_file_per_name() {
    let mut tree = WorkTree::new();
    assert_eq!(tree.len(), 0);
    tree.put("a", b"1".to_vec());
    tree.put("b", b"2".to_vec());
    tree.put("a", b"3".to_vec());
    assert_eq!(tree.len(), 2);
    assert_eq!(tree.get("a"), Some(&b"3".to_vec()));
    assert_eq!(tree.get("b"), Some(&b"2".to_vec()));
    assert_eq!(tree.get("c"), None);
    assert!(tree.contains("a"));
    assert!(tree.remove("a"));
    assert!(!tree.remove("a"));
    assert!(!tree.contains("a"));
    assert_eq!(tree.len(), 1);
    assert_eq!(tree.file(0).name, "b");
    let copy = tree.duplicate();
    assert_eq!(copy.get("b"), Some(&b"2".to_vec()));
    let listed = WorkTree { files: vec![StoredFile { name: String::from("x"), data: vec![1] }] };
    assert_eq!(listed.get("x"), Some(&vec![1u8]));
}

#[test]
fn state_needs_the_required_files() {
    assert!(matches!(State::init(WorkTree::new(), b"pass", b"entropy"), Err(Error::MissingFile)));
}

#[test]
fn state_finds_accounts() {
    let sess = Session::unlock(1, b"pass", b"entropy").unwrap();
    let mut db = new_store(&sess);
    let group = Group {
        version: String::from("0.0.1"),
        accounts: vec![Account { username: String::from("alice"), password: String::from("pw") }],
    };
    db.put(&request("mona/accounts/github.com", &[]), &group.to_toml_bytes().unwrap(), &sess).unwrap();
    db.put(&request("mona/accounts/gitlab.com", &[]), &Group::empty().to_toml_bytes().unwrap(), &sess).unwrap();
    db.put(&request("mona/accounts/example.org", &[]), &Group::empty().to_toml_bytes().unwrap(), &sess).unwrap();
    db.put(&request("notes/git", &[]), b"not an account", &sess).unwrap();

    let state = State::init(db.tree, b"pass", b"entropy").unwrap();
    assert_eq!(state.sess.site_id, 1);
    assert_eq!(state.validate_encryption_key(), Ok(()));
    assert_eq!(state.account_query("git"), Ok(vec![String::from("github.com"), String::from("gitlab.com")]));
    assert_eq!(state.account_query("hub"), Ok(vec![String::from("github.com")]));
    assert_eq!(
        state.account_query(""),
        Ok(vec![String::from("github.com"), String::from("gitlab.com"), String::from("example.org")])
    );
    assert_eq!(state.account_query("mona"), Ok(vec![]));

    let creds = state.account("github.com").unwrap();
    assert_eq!(creds.len(), 1);
    assert_eq!(creds[0].username, "alice");
    assert_eq!(creds[0].password, "pw");
    assert!(state.account("gitlab.com").unwrap().is_empty());
    assert!(matches!(state.account("absent"), Err(Error::NotFound)));

    let wrong = State::init(state.db.tree, b"other", b"entropy").unwrap();
    assert_eq!(wrong.validate_encryption_key(), Err(Error::Authentication));
    assert_eq!(wrong.account_query("git"), Err(Error::Authentication));
}

fn fixed_meta(salt: &[u8], nonce: &[u8]) -> Meta {
    Meta::secure_meta(salt, nonce)
}

fn snapshot(db: &DB) -> Vec<(String, Vec<u8>)> {
    let mut files: Vec<(String, Vec<u8>)> =
        db.tree.files.iter().map(|f| (f.name.clone(), f.data.clone())).collect();
    files.sort();
    files
}

#[test]
fn secure_meta_is_the_default_with_salt_and_nonce() {
    let meta = Meta::secure_meta(b"salt-of-12-b", b"nonce-of-12b");
    assert_eq!(meta.pbkdf2.salt, "c2FsdC1vZi0xMi1i");
    assert_eq!(meta.aead.nonce, "bm9uY2Utb2YtMTJi");
    assert_eq!(meta.version, "0.0.1");
    assert_eq!(meta.pbkdf2.iters, 100_000);
    assert_eq!(meta.aead.keylen, 256);
    assert_eq!(meta.plaintext.min_bits, 1024);
    assert_eq!(meta.paranoid.cascading_encryption, "none");
}

#[test]
fn free_candidate_is_burnt_and_returned() {
    let sess = session();
    let mut db = new_store(&sess);
    let before = db.burnt_nonces().unwrap();
    assert_eq!(db.try_nonce(0, b"nonce-of-12b"), Ok(Some(b"nonce-of-12b".to_vec())));
    let mut expected = before.clone();
    expected.push(b"nonce-of-12b".to_vec());
    assert_eq!(db.burnt_nonces().unwrap(), expected);
    assert_eq!(db.try_nonce(9, b"nonce-of-12c"), Ok(Some(b"nonce-of-12c".to_vec())));
}

#[test]
fn burnt_candidate_is_thrown_away_until_the_last_attempt() {
    let sess = session();
    let mut db = new_store(&sess);
    db.burn_nonce(b"nonce-of-12b").unwrap();
    let before = snapshot(&db);
    for attempt in 0..9u32 {
        assert_eq!(db.try_nonce(attempt, b"nonce-of-12b"), Ok(None));
    }
    assert_eq!(db.try_nonce(9, b"nonce-of-12b"), Err(Error::NonceExhausted));
    assert_eq!(db.try_nonce(u32::MAX, b"nonce-of-12b"), Err(Error::NonceExhausted));
    assert_eq!(snapshot(&db), before);
    db.tree.remove("burnt_nonces");
    assert_eq!(db.try_nonce(0, b"nonce-of-12b"), Err(Error::MissingFile));
}

#[test]
fn usable_candidate_gives_its_text_form_as_name() {
    let sess = session();
    let mut db = new_store(&sess);
    assert_eq!(db.try_name(0, b"nonce-of-12b"), Ok(Some(String::from("bm9uY2Utb2YtMTJi"))));
    db.tree.put("bm9uY2Utb2YtMTJi", vec![]);
    assert_eq!(db.try_name(0, b"nonce-of-12b"), Ok(None));
    assert_eq!(db.try_name(8, b"nonce-of-12b"), Ok(None));
    assert_eq!(db.try_name(9, b"nonce-of-12b"), Err(Error::NameExhausted));
    db.tree.remove("bm9uY2Utb2YtMTJi");
    db.tree.put("bm9uY2Utb2YtMTJi.toml", vec![]);
    assert_eq!(db.try_name(0, b"nonce-of-12b"), Ok(None));
    assert_eq!(db.try_name(0, b"nonce-of-12c"), Ok(Some(String::from("bm9uY2Utb2YtMTJj"))));
}

#[test]
fn sealing_with_given_metadata_writes_exactly_two_files() {
    let sess = session();
    let mut db = new_store(&sess);
    let before = snapshot(&db);
    let meta = fixed_meta(b"salt-of-12-b", b"nonce-of-12b");
    db.write_sealed_with("blob", b"1234", &sess, &meta).unwrap();

    let mut expected = before.clone();
    expected.push((String::from("blob"), mona::crypto::encrypt(&sess.master_key, b"1234", &meta).unwrap()));
    expected.push((String::from("blob.toml"), meta.to_toml_bytes().unwrap()));
    expected.sort();
    assert_eq!(snapshot(&db), expected);
    assert_eq!(db.open("blob", &sess).unwrap().data, b"1234".to_vec());

    let (sealed, text) = DB::seal_with(b"1234", &sess, &meta).unwrap();
    assert_eq!(db.tree.get("blob"), Some(&sealed));
    assert_eq!(db.tree.get("blob.toml"), Some(&text));

    let mut weak = fixed_meta(b"salt-of-12-b", b"nonce-of-12b");
    weak.aead.keylen = 128;
    assert_eq!(db.write_sealed_with("other", b"1234", &sess, &weak), Err(Error::KeyLengthMismatch));
    let mut few = fixed_meta(b"salt-of-12-b", b"nonce-of-12b");
    few.pbkdf2.iters = 1;
    assert_eq!(db.write_sealed_with("other", b"1234", &sess, &few), Err(Error::TooFewIterations));
    assert_eq!(snapshot(&db), expected);
}

#[test]
fn put_with_given_name_and_metadata_is_fixed() {
    let sess = session();
    let mut db = new_store(&sess);
    let before = snapshot(&db);
    let data_meta = fixed_meta(b"salt-of-12-b", b"nonce-of-12b");
    let manifest_meta = fixed_meta(b"salt-of-12-c", b"nonce-of-12c");
    db.put_with(&request("secret/bank", &["finance"]), b"1234", &sess, "AAAAAAAAAAAAAAAA", &data_meta, &manifest_meta)
        .unwrap();

    let rows = Manifest {
        entries: vec![Entry {
            path: String::from("secret/bank"),
            tags: vec![String::from("finance")],
            garbled_path: String::from("AAAAAAAAAAAAAAAA"),
        }],
    };
    let mut expected: Vec<(String, Vec<u8>)> =
        before.iter().filter(|f| !f.0.starts_with("manifest")).cloned().collect();
    expected.push((
        String::from("AAAAAAAAAAAAAAAA"),
        mona::crypto::encrypt(&sess.master_key, b"1234", &data_meta).unwrap(),
    ));
    expected.push((String::from("AAAAAAAAAAAAAAAA.toml"), data_meta.to_toml_bytes().unwrap()));
    expected.push((
        String::from("manifest"),
        mona::crypto::encrypt(&sess.master_key, &rows.to_toml_bytes().unwrap(), &manifest_meta).unwrap(),
    ));
    expected.push((String::from("manifest.toml"), manifest_meta.to_toml_bytes().unwrap()));
    expected.sort();
    assert_eq!(snapshot(&db), expected);
    assert_eq!(db.get("secret/bank", &sess).unwrap().data, b"1234".to_vec());

    let again = fixed_meta(b"salt-of-12-d", b"nonce-of-12d");
    let again_manifest = fixed_meta(b"salt-of-12-e", b"nonce-of-12e");
    db.put_with(&request("secret/bank", &[]), b"5678", &sess, "BBBBBBBBBBBBBBBB", &again, &again_manifest).unwrap();
    assert!(!db.tree.contains("AAAAAAAAAAAAAAAA"));
    assert!(!db.tree.contains("AAAAAAAAAAAAAAAA.toml"));
    assert_eq!(db.tree.get("BBBBBBBBBBBBBBBB.toml"), Some(&again.to_toml_bytes().unwrap()));
    assert_eq!(db.get("secret/bank", &sess).unwrap().data, b"5678".to_vec());
    assert_eq!(db.list(&sess).unwrap().len(), 1);
}

#[test]
fn put_with_fails_without_writing() {
    let sess = session();
    let mut db = new_store(&sess);
    let before = snapshot(&db);
    let good = fixed_meta(b"salt-of-12-b", b"nonce-of-12b");
    let mut weak = fixed_meta(b"salt-of-12-c", b"nonce-of-12c");
    weak.aead.keylen = 128;
    assert_eq!(db.put_with(&request("", &[]), b"x", &sess, "AAAAAAAAAAAAAAAA", &good, &good), Err(Error::InvalidPath));
    assert_eq!(
        db.put_with(&request("a", &[]), b"x", &sess, "AAAAAAAAAAAAAAAA", &weak, &good),
        Err(Error::KeyLengthMismatch)
    );
    assert_eq!(
        db.put_with(&request("a", &[]), b"x", &sess, "AAAAAAAAAAAAAAAA", &good, &weak),
        Err(Error::KeyLengthMismatch)
    );
    let other = Session { site_id: 1, master_key: vec![1u8; 32] };
    assert_eq!(
        db.put_with(&request("a", &[]), b"x", &other, "AAAAAAAAAAAAAAAA", &good, &good),
        Err(Error::Authentication)
    );
    assert_eq!(snapshot(&db), before);
}

#[test]
fn rm_with_given_metadata_is_fixed() {
    let sess = session();
    let mut db = new_store(&sess);
    let base = snapshot(&db);
    let one = fixed_meta(b"salt-of-12-b", b"nonce-of-12b");
    let two = fixed_meta(b"salt-of-12-c", b"nonce-of-12c");
    db.put_with(&request("a", &[]), b"1", &sess, "AAAAAAAAAAAAAAAA", &one, &two).unwrap();
    let with_entry = snapshot(&db);

    let mut weak = fixed_meta(b"salt-of-12-d", b"nonce-of-12d");
    weak.pbkdf2.iters = 9_999;
    assert_eq!(db.rm_with("a", &sess, &weak), Err(Error::TooFewIterations));
    assert_eq!(db.rm_with("never", &sess, &one), Err(Error::NotFound));
    assert_eq!(snapshot(&db), with_entry);

    let three = fixed_meta(b"salt-of-12-e", b"nonce-of-12e");
    db.rm_with("a", &sess, &three).unwrap();
    let mut expected: Vec<(String, Vec<u8>)> =
        base.iter().filter(|f| !f.0.starts_with("manifest")).cloned().collect();
    expected.push((
        String::from("manifest"),
        mona::crypto::encrypt(&sess.master_key, &Manifest::empty().to_toml_bytes().unwrap(), &three).unwrap(),
    ));
    expected.push((String::from("manifest.toml"), three.to_toml_bytes().unwrap()));
    expected.sort();
    assert_eq!(snapshot(&db), expected);
}

#[test]
fn manifest_and_remotes_are_written_with_given_metadata() {
    let sess = session();
    let mut db = new_store(&sess);
    let meta = fixed_meta(b"salt-of-12-b", b"nonce-of-12b");
    let rows = Manifest {
        entries: vec![Entry { path: String::from("a"), tags: vec![], garbled_path: String::from("g") }],
    };
    db.write_manifest_with(&rows, &sess, &meta).unwrap();
    assert_eq!(
        db.tree.get("manifest"),
        Some(&mona::crypto::encrypt(&sess.master_key, &rows.to_toml_bytes().unwrap(), &meta).unwrap())
    );
    assert_eq!(db.tree.get("manifest.toml"), Some(&meta.to_toml_bytes().unwrap()));
    assert_eq!(db.list(&sess).unwrap()[0].garbled_path, "g");

    let remotes = mona::git_creds::Remotes { remotes: vec![remote("origin")] };
    db.write_remotes_with(&remotes, &sess, &meta).unwrap();
    assert_eq!(
        db.tree.get("remotes"),
        Some(&mona::crypto::encrypt(&sess.master_key, &remotes.to_toml_bytes().unwrap(), &meta).unwrap())
    );
    assert_eq!(db.tree.get("remotes.toml"), Some(&meta.to_toml_bytes().unwrap()));
    assert_eq!(db.remotes(&sess).unwrap().remotes[0].name, "origin");

    let mut weak = fixed_meta(b"salt-of-12-b", b"nonce-of-12b");
    weak.aead.nonce = String::from("short");
    let before = snapshot(&db);
    assert_eq!(db.write_remotes_with(&remotes, &sess, &weak), Err(Error::BadEncoding));
    assert_eq!(db.write_manifest_with(&rows, &sess, &weak), Err(Error::BadEncoding));
    assert_eq!(snapshot(&db), before);
}
