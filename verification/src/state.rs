//! An unlocked store with its session, and the accounts kept in it.
//!
//! An account is an entry whose logical path begins with `mona/accounts/`;
//! what follows is the account's name, and the content is the text of its
//! group of credentials.

use vstd::prelude::*;
use vstd::string::*;
use crate::account::{Account, AccountView, Group, text_group, account_views};
use crate::crypto::{Session, master_key, MAX_KDF_INPUT};
use crate::document::text_views;
use crate::error::Error;
use crate::git_db::{DB, content_of, manifest_of, ledger_name, manifest_name, remotes_name};
use crate::manifest::{EntryView, entry_views};
use crate::tree::WorkTree;

verus! {

/// The store and the session that unlocks it.
#[derive(Debug)]
pub struct State {
    pub db: DB,
    pub sess: Session,
}

/// The identifier of this site in every session.
pub const SITE_ID: u32 = 1;

/// The beginning of the logical path of every account.
pub open spec fn account_prefix() -> Seq<char> {
    "mona/accounts/"@
}

/// Whether `s` begins with `p`.
pub open spec fn has_prefix(s: Seq<char>, p: Seq<char>) -> bool {
    s.len() >= p.len() && s.take(p.len() as int) == p
}

/// Whether `q` stands somewhere in `s`.
pub open spec fn contains_text(s: Seq<char>, q: Seq<char>) -> bool {
    exists|i: int| 0 <= i <= s.len() - q.len() && #[trigger] s.subrange(i, i + q.len()) == q
}

/// Whether a row is an account whose name holds `q`.
pub open spec fn is_match(row: EntryView, q: Seq<char>) -> bool {
    has_prefix(row.path, account_prefix()) && contains_text(row.path.skip(account_prefix().len() as int), q)
}

/// The names of the accounts among the rows whose name holds `q`, in the
/// order of the rows.
pub open spec fn matching_accounts(rows: Seq<EntryView>, q: Seq<char>) -> Seq<Seq<char>>
    decreases rows.len(),
{
    if rows.len() == 0 {
        Seq::empty()
    } else if is_match(rows.last(), q) {
        matching_accounts(rows.drop_last(), q).push(rows.last().path.skip(account_prefix().len() as int))
    } else {
        matching_accounts(rows.drop_last(), q)
    }
}

/// The credentials of an account: what is stored under its path, read as a
/// group.
pub open spec fn credentials_of(files: Map<Seq<char>, Seq<u8>>, key: Seq<u8>, name: Seq<char>) -> Result<
    Seq<AccountView>,
    Error,
> {
    match content_of(files, key, account_prefix() + name) {
        Err(e) => Err(e),
        Ok(bytes) => match text_group(bytes) {
            Ok(g) => Ok(g.accounts),
            Err(e) => Err(e),
        },
    }
}

/// The characters of a text.
pub fn chars_of(s: &str) -> (r: Vec<char>)
    ensures
        r@ == s@,
{
    let n = s.unicode_len();
    let mut r: Vec<char> = Vec::new();
    let mut i: usize = 0;
    while i < n
        invariant
            0 <= i <= n,
            n == s@.len(),
            r@ == s@.take(i as int),
        decreases n - i,
    {
        r.push(s.get_char(i));
        assert(s@.take(i + 1) =~= s@.take(i as int).push(s@[i as int]));
        i += 1;
    }
    assert(s@.take(n as int) =~= s@);
    r
}

/// Whether `q` stands in `s` at place `at`.
fn matches_at(s: &Vec<char>, at: usize, q: &Vec<char>) -> (b: bool)
    requires
        at + q@.len() <= s@.len(),
    ensures
        b == (s@.subrange(at as int, at + q@.len()) == q@),
{
    let n = s.len();
    let mut k: usize = 0;
    while k < q.len()
        invariant
            0 <= k <= q.len(),
            at + q@.len() <= s@.len(),
            s@.len() == n,
            s@.subrange(at as int, at + k) == q@.take(k as int),
        decreases q.len() - k,
    {
        if s[at + k] != q[k] {
            proof {
                assert(s@.subrange(at as int, at + q@.len())[k as int] == s@[at + k]);
            }
            return false;
        }
        assert(s@.subrange(at as int, at + k + 1) =~= s@.subrange(at as int, at + k).push(s@[at + k]));
        assert(q@.take(k + 1) =~= q@.take(k as int).push(q@[k as int]));
        k += 1;
    }
    assert(q@.take(q@.len() as int) =~= q@);
    true
}

/// Whether `s` begins with `p`.
pub fn starts_with(s: &Vec<char>, p: &Vec<char>) -> (b: bool)
    ensures
        b == has_prefix(s@, p@),
{
    if s.len() < p.len() {
        return false;
    }
    let b = matches_at(s, 0, p);
    assert(s@.subrange(0, p@.len() as int) =~= s@.take(p@.len() as int));
    b
}

/// Whether `q` stands somewhere in `s`.
pub fn contains(s: &Vec<char>, q: &Vec<char>) -> (b: bool)
    ensures
        b == contains_text(s@, q@),
{
    if s.len() < q.len() {
        return false;
    }
    let last = s.len() - q.len();
    let mut i: usize = 0;
    while i < last
        invariant
            0 <= i <= last,
            last == s@.len() - q@.len(),
            forall|j: int| 0 <= j < i ==> #[trigger] s@.subrange(j, j + q@.len()) != q@,
        decreases last - i,
    {
        if matches_at(s, i, q) {
            return true;
        }
        i += 1;
    }
    matches_at(s, last, q)
}

impl State {
    /// Unlocks the store over the files of a working tree with the master
    /// passphrase and the bytes of the entropy file.
    ///
    /// Fails with `InputTooLong` where the passphrase or the entropy is
    /// beyond the length that is handed to the key derivation, else with
    /// `MissingFile` where the ledger, the manifest or the remotes are not in
    /// the tree.
    pub fn init(tree: WorkTree, master_pass: &[u8], entropy: &[u8]) -> (r: Result<State, Error>)
        requires
            tree.wf(),
        ensures
            match r {
                Ok(st) => {
                    &&& st.db.wf()
                    &&& st.db.tree@ == tree@
                    &&& st.sess.site_id == SITE_ID
                    &&& st.sess.master_key@ == master_key(master_pass@, entropy@)
                    &&& master_pass@.len() <= MAX_KDF_INPUT && entropy@.len() <= MAX_KDF_INPUT
                    &&& tree@.contains_key(ledger_name()) && tree@.contains_key(manifest_name())
                        && tree@.contains_key(remotes_name())
                },
                Err(e) => if master_pass@.len() > MAX_KDF_INPUT || entropy@.len() > MAX_KDF_INPUT {
                    e == Error::InputTooLong
                } else {
                    e == Error::MissingFile && !(tree@.contains_key(ledger_name()) && tree@.contains_key(
                        manifest_name(),
                    ) && tree@.contains_key(remotes_name()))
                },
            },
    {
        let sess = match Session::unlock(SITE_ID, master_pass, entropy) {
            Ok(sess) => sess,
            Err(e) => {
                return Err(e);
            },
        };
        if !tree.contains("burnt_nonces") || !tree.contains("manifest") || !tree.contains("remotes") {
            return Err(Error::MissingFile);
        }
        Ok(State { db: DB { tree }, sess })
    }

    /// Whether the session's key is the one that the store was sealed with:
    /// succeeds exactly where the manifest opens, and fails with the failure
    /// of opening it.
    pub fn validate_encryption_key(&self) -> (r: Result<(), Error>)
        requires
            self.db.wf(),
        ensures
            match manifest_of(self.db.tree@, self.sess.master_key@) {
                Ok(_) => r is Ok,
                Err(e) => r == Err::<(), Error>(e),
            },
    {
        match self.db.manifest(&self.sess) {
            Ok(_) => Ok(()),
            Err(e) => Err(e),
        }
    }

    /// The names of the accounts whose name holds `q`, in the order of the
    /// manifest.
    pub fn account_query(&self, q: &str) -> (r: Result<Vec<String>, Error>)
        requires
            self.db.wf(),
        ensures
            match manifest_of(self.db.tree@, self.sess.master_key@) {
                Ok(rows) => r matches Ok(names) && text_views(names@) == matching_accounts(rows, q@),
                Err(e) => r matches Err(x) && x == e,
            },
    {
        let rows = match self.db.list(&self.sess) {
            Ok(rows) => rows,
            Err(e) => {
                return Err(e);
            },
        };
        let prefix = chars_of("mona/accounts/");
        let query = chars_of(q);
        let mut names: Vec<String> = Vec::new();
        let mut i: usize = 0;
        proof {
            assert(text_views(names@) =~= Seq::<Seq<char>>::empty());
            assert(entry_views(rows@).take(0) =~= Seq::<EntryView>::empty());
        }
        while i < rows.len()
            invariant
                0 <= i <= rows.len(),
                prefix@ == account_prefix(),
                query@ == q@,
                text_views(names@) == matching_accounts(entry_views(rows@).take(i as int), q@),
            decreases rows.len() - i,
        {
            let path = rows[i].path.as_str();
            let chars = chars_of(path);
            proof {
                let views = entry_views(rows@);
                assert(views.take(i + 1).drop_last() =~= views.take(i as int));
                assert(views.take(i + 1).last() == rows@[i as int]@);
            }
            if starts_with(&chars, &prefix) {
                let name = path.substring_char(prefix.len(), chars.len());
                let name_chars = chars_of(name);
                proof {
                    assert(path@.subrange(prefix@.len() as int, path@.len() as int) =~= path@.skip(
                        prefix@.len() as int,
                    ));
                }
                if contains(&name_chars, &query) {
                    let owned = name.to_owned();
                    proof {
                        assert(text_views(names@.push(owned)) =~= text_views(names@).push(owned@));
                    }
                    names.push(owned);
                }
            }
            i += 1;
        }
        proof {
            assert(entry_views(rows@).take(rows@.len() as int) =~= entry_views(rows@));
        }
        Ok(names)
    }

    /// The credentials of the account of the given name.
    pub fn account(&self, acc: &str) -> (r: Result<Vec<Account>, Error>)
        requires
            self.db.wf(),
        ensures
            match credentials_of(self.db.tree@, self.sess.master_key@, acc@) {
                Ok(accounts) => r matches Ok(v) && account_views(v@) == accounts,
                Err(e) => r matches Err(x) && x == e,
            },
    {
        let mut key = "mona/accounts/".to_owned();
        key.append(acc);
        let plain = match self.db.get(key.as_str(), &self.sess) {
            Ok(plain) => plain,
            Err(e) => {
                return Err(e);
            },
        };
        match Group::from_toml_bytes(&plain.data) {
            Ok(group) => Ok(group.accounts),
            Err(e) => Err(e),
        }
    }
}

} // verus!
