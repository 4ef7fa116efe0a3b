//! Accounts: the credentials that are kept under one name.

use vstd::prelude::*;
use vstd::string::*;
use crate::document::{
    TomlValue, TomlTree, tree_field, tree_str, array_trees, is_plain_key, is_plain_document,
    is_record, is_record_list, is_leaf, document_text, document_of, push_field, lemma_table_tree,
    lemma_table_map_empty, lemma_array_tree, value_fits, pairs_fit, items_fit, lemma_fits_deeper, lemma_fits_one_more, MAX_NESTING,
};
use crate::error::Error;

verus! {

/// The credentials of one account name.
#[derive(Debug)]
pub struct Group {
    pub version: String,
    pub accounts: Vec<Account>,
}

/// One credential: a user name and a password.
#[derive(Debug)]
pub struct Account {
    pub username: String,
    pub password: String,
}

/// A credential with its texts as sequences of characters.
pub struct AccountView {
    pub username: Seq<char>,
    pub password: Seq<char>,
}

/// A group with its texts as sequences of characters.
pub struct GroupView {
    pub version: Seq<char>,
    pub accounts: Seq<AccountView>,
}

impl View for Account {
    type V = AccountView;

    open spec fn view(&self) -> AccountView {
        AccountView { username: self.username@, password: self.password@ }
    }
}

/// The views of a list of credentials.
pub open spec fn account_views(accounts: Seq<Account>) -> Seq<AccountView> {
    Seq::new(accounts.len(), |i: int| accounts[i]@)
}

impl View for Group {
    type V = GroupView;

    open spec fn view(&self) -> GroupView {
        GroupView { version: self.version@, accounts: account_views(self.accounts@) }
    }
}

/// The document of a credential.
pub open spec fn account_tree(a: AccountView) -> TomlTree {
    TomlTree::Table(
        Map::<Seq<char>, TomlTree>::empty().insert("username"@, TomlTree::Str(a.username)).insert(
            "password"@,
            TomlTree::Str(a.password),
        ),
    )
}

/// The documents of a list of credentials.
pub open spec fn account_trees(accounts: Seq<AccountView>) -> Seq<TomlTree> {
    Seq::new(accounts.len(), |i: int| account_tree(accounts[i]))
}

/// The document of a group: its version and the list of its credentials.
pub open spec fn group_tree(g: GroupView) -> TomlTree {
    TomlTree::Table(
        Map::<Seq<char>, TomlTree>::empty().insert("version"@, TomlTree::Str(g.version)).insert(
            "accounts"@,
            TomlTree::Array(account_trees(g.accounts)),
        ),
    )
}

/// The credential that a document holds. Keys that are not fields are passed
/// over.
pub open spec fn tree_account(t: TomlTree) -> Option<AccountView> {
    match (tree_str(t, "username"@), tree_str(t, "password"@)) {
        (Some(username), Some(password)) => Some(AccountView { username, password }),
        _ => None,
    }
}

/// The group that a document holds, or `Malformed` where it has no version,
/// no list under `accounts`, or an item of the list that is no credential.
pub open spec fn tree_group(t: TomlTree) -> Result<GroupView, Error> {
    match (tree_str(t, "version"@), tree_field(t, "accounts"@)) {
        (Some(version), Some(TomlTree::Array(items))) => if forall|i: int|
            0 <= i < items.len() ==> tree_account(#[trigger] items[i]) is Some {
            Ok(GroupView { version, accounts: Seq::new(items.len(), |i: int| tree_account(items[i])->Some_0) })
        } else {
            Err(Error::Malformed)
        },
        _ => Err(Error::Malformed),
    }
}

/// The text of a group.
pub open spec fn group_text(g: GroupView) -> Option<Seq<u8>> {
    document_text(group_tree(g))
}

/// The group that the bytes hold.
pub open spec fn text_group(bytes: Seq<u8>) -> Result<GroupView, Error> {
    match document_of(bytes) {
        Some(t) => tree_group(t),
        None => Err(Error::Malformed),
    }
}

proof fn reveal_account_keys()
    ensures
        "version"@.len() == 7,
        "accounts"@.len() == 8,
        "username"@.len() == 8,
        "password"@.len() == 8,
        "username"@[0] == 'u',
        "password"@[0] == 'p',
        is_plain_key("version"@),
        is_plain_key("accounts"@),
        is_plain_key("username"@),
        is_plain_key("password"@),
{
    reveal_strlit("version");
    reveal_strlit("accounts");
    reveal_strlit("username");
    reveal_strlit("password");
}

/// Reading the document of a credential gives the credential back.
pub proof fn lemma_account_tree_round_trip(a: AccountView)
    ensures
        tree_account(account_tree(a)) == Some(a),
        is_record(account_tree(a)),
{
    reveal_account_keys();
    let t = account_tree(a);
    assert(tree_str(t, "username"@) == Some(a.username));
    assert(tree_str(t, "password"@) == Some(a.password));
}

/// Reading the document of a group gives the group back, and the document is
/// one of the plain documents.
pub proof fn lemma_group_tree_round_trip(g: GroupView)
    ensures
        tree_group(group_tree(g)) == Ok::<GroupView, Error>(g),
        is_plain_document(group_tree(g)),
{
    reveal_account_keys();
    let t = group_tree(g);
    let items = account_trees(g.accounts);
    assert(tree_str(t, "version"@) == Some(g.version));
    assert(tree_field(t, "accounts"@) == Some(TomlTree::Array(items)));
    assert forall|i: int| 0 <= i < items.len() implies tree_account(#[trigger] items[i]) == Some(
        g.accounts[i],
    ) && is_record(items[i]) by {
        lemma_account_tree_round_trip(g.accounts[i]);
    }
    assert(Seq::new(items.len(), |i: int| tree_account(items[i])->Some_0) =~= g.accounts);
    let fields = t->Table_0;
    assert(is_leaf(fields["version"@]));
    if g.accounts.len() == 0 {
        assert(is_leaf(fields["accounts"@]));
    } else {
        assert(is_record_list(fields["accounts"@]));
    }
}

impl Clone for Account {
    fn clone(&self) -> (r: Self)
        ensures
            r@ == self@,
    {
        Account { username: self.username.clone(), password: self.password.clone() }
    }
}

impl Account {
    /// The document of this credential.
    pub fn to_toml_value(&self) -> (v: TomlValue)
        ensures
            v@ == account_tree(self@),
            value_fits(v, 1),
    {
        proof {
            lemma_table_map_empty();
            lemma_fits_one_more(0);
        }
        let mut fields: Vec<(String, TomlValue)> = Vec::new();
        push_field(&mut fields, "username", TomlValue::Str(self.username.clone()));
        push_field(&mut fields, "password", TomlValue::Str(self.password.clone()));
        proof {
            lemma_table_tree(fields);
            assert(pairs_fit(fields@, 0));
        }
        TomlValue::Table(fields)
    }

    /// The credential that a document holds.
    pub fn from_toml_value(v: &TomlValue) -> (r: Option<Account>)
        ensures
            match r {
                Some(x) => tree_account(v@) == Some(x@),
                None => tree_account(v@) is None,
            },
    {
        match (v.get_str("username"), v.get_str("password")) {
            (Some(username), Some(password)) => Some(Account { username, password }),
            _ => None,
        }
    }
}

impl Group {
    /// A group without credentials, of version `0.0.1`.
    pub fn empty() -> (g: Group)
        ensures
            g@ == (GroupView { version: "0.0.1"@, accounts: Seq::<AccountView>::empty() }),
    {
        let g = Group { version: "0.0.1".to_owned(), accounts: Vec::new() };
        assert(g@.accounts =~= Seq::<AccountView>::empty());
        g
    }

    /// The document of this group.
    pub fn to_toml_value(&self) -> (v: TomlValue)
        ensures
            v@ == group_tree(self@),
            value_fits(v, 3),
    {
        let mut items: Vec<TomlValue> = Vec::new();
        let mut i: usize = 0;
        while i < self.accounts.len()
            invariant
                0 <= i <= self.accounts.len(),
                items@.len() == i,
                forall|j: int| 0 <= j < i ==> (#[trigger] items@[j]).tree() == account_tree(self.accounts@[j]@),
                forall|j: int| 0 <= j < i ==> value_fits(#[trigger] items@[j], 1),
            decreases self.accounts.len() - i,
        {
            items.push(self.accounts[i].to_toml_value());
            i += 1;
        }
        proof {
            lemma_array_tree(items);
            assert(array_trees(items@) =~= account_trees(self@.accounts));
            lemma_table_map_empty();
            lemma_fits_one_more(1);
            lemma_fits_one_more(2);
            assert(items_fit(items@, 1));
        }
        let mut fields: Vec<(String, TomlValue)> = Vec::new();
        push_field(&mut fields, "version", TomlValue::Str(self.version.clone()));
        push_field(&mut fields, "accounts", TomlValue::Array(items));
        proof {
            lemma_table_tree(fields);
            assert(pairs_fit(fields@, 2));
        }
        TomlValue::Table(fields)
    }

    /// The group that a document holds.
    pub fn from_toml_value(v: &TomlValue) -> (r: Result<Group, Error>)
        ensures
            match tree_group(v@) {
                Ok(g) => r matches Ok(x) && x@ == g,
                Err(e) => r matches Err(x) && x == e,
            },
    {
        let version = match v.get_str("version") {
            Some(version) => version,
            None => {
                return Err(Error::Malformed);
            },
        };
        let items = match v.get("accounts") {
            Some(list) => match list.as_array() {
                Some(items) => items,
                None => {
                    return Err(Error::Malformed);
                },
            },
            None => {
                return Err(Error::Malformed);
            },
        };
        let ghost trees = array_trees(items@);
        let mut accounts: Vec<Account> = Vec::new();
        let mut i: usize = 0;
        while i < items.len()
            invariant
                0 <= i <= items.len(),
                accounts@.len() == i,
                trees == array_trees(items@),
                tree_str(v@, "version"@) == Some(version@),
                tree_field(v@, "accounts"@) == Some(TomlTree::Array(trees)),
                forall|j: int| 0 <= j < i ==> tree_account(#[trigger] trees[j]) == Some(accounts@[j]@),
            decreases items.len() - i,
        {
            match Account::from_toml_value(&items[i]) {
                Some(a) => {
                    accounts.push(a);
                },
                None => {
                    proof {
                        assert(tree_account(trees[i as int]) is None);
                    }
                    return Err(Error::Malformed);
                },
            }
            i += 1;
        }
        let g = Group { version, accounts };
        proof {
            assert(g@.accounts =~= Seq::new(trees.len(), |i: int| tree_account(trees[i])->Some_0));
        }
        Ok(g)
    }

    /// The text of this group. Fails with `Malformed` exactly where the
    /// document has no text. The text that is returned reads back as this
    /// group.
    pub fn to_toml_bytes(&self) -> (r: Result<Vec<u8>, Error>)
        ensures
            match group_text(self@) {
                Some(bytes) => r matches Ok(v) && v@ == bytes && text_group(bytes) == Ok::<GroupView, Error>(
                    self@,
                ),
                None => r matches Err(e) && e == Error::Malformed,
            },
    {
        let v = self.to_toml_value();
        proof {
            lemma_group_tree_round_trip(self@);
            lemma_fits_deeper(v, 3, MAX_NESTING as nat);
        }
        v.to_bytes()
    }

    /// The group that the bytes hold.
    pub fn from_toml_bytes(bytes: &Vec<u8>) -> (r: Result<Group, Error>)
        ensures
            match text_group(bytes@) {
                Ok(g) => r matches Ok(x) && x@ == g,
                Err(e) => r matches Err(x) && x == e,
            },
    {
        match TomlValue::from_bytes(bytes.as_slice()) {
            Ok(v) => Group::from_toml_value(&v),
            Err(_) => Err(Error::Malformed),
        }
    }
}

} // verus!
