//! The remotes that the store is synchronised with, and how to log in there.

use vstd::prelude::*;
use vstd::string::*;
use crate::document::{
    TomlValue, TomlTree, tree_field, tree_str, array_trees, is_plain_key, is_plain_document,
    is_record, is_record_list, is_leaf, document_text, document_of, push_field, lemma_table_tree,
    lemma_table_map_empty, lemma_array_tree, value_fits, pairs_fit, items_fit, lemma_fits_deeper, lemma_fits_one_more, MAX_NESTING,
};
use crate::error::Error;

verus! {

/// The user name and the password for a remote.
#[derive(Debug)]
pub struct Credentials {
    pub username: String,
    pub password: String,
}

/// One remote: the name it is registered under, its address, and the
/// credentials for it.
#[derive(Debug)]
pub struct Remote {
    pub name: String,
    pub url: String,
    pub credentials: Credentials,
}

/// The remotes, in the order in which they were added.
#[derive(Debug)]
pub struct Remotes {
    pub remotes: Vec<Remote>,
}

/// A remote with its texts as sequences of characters.
pub struct RemoteView {
    pub name: Seq<char>,
    pub url: Seq<char>,
    pub username: Seq<char>,
    pub password: Seq<char>,
}

impl View for Remote {
    type V = RemoteView;

    open spec fn view(&self) -> RemoteView {
        RemoteView {
            name: self.name@,
            url: self.url@,
            username: self.credentials.username@,
            password: self.credentials.password@,
        }
    }
}

/// The views of a list of remotes.
pub open spec fn remote_views(remotes: Seq<Remote>) -> Seq<RemoteView> {
    Seq::new(remotes.len(), |i: int| remotes[i]@)
}

impl View for Remotes {
    type V = Seq<RemoteView>;

    open spec fn view(&self) -> Seq<RemoteView> {
        remote_views(self.remotes@)
    }
}

/// The remotes without those that have the name, in their order.
pub open spec fn without_name(remotes: Seq<RemoteView>, name: Seq<char>) -> Seq<RemoteView>
    decreases remotes.len(),
{
    if remotes.len() == 0 {
        Seq::empty()
    } else if remotes.last().name == name {
        without_name(remotes.drop_last(), name)
    } else {
        without_name(remotes.drop_last(), name).push(remotes.last())
    }
}

/// The document of a remote.
pub open spec fn remote_tree(r: RemoteView) -> TomlTree {
    TomlTree::Table(
        Map::<Seq<char>, TomlTree>::empty().insert("name"@, TomlTree::Str(r.name)).insert(
            "url"@,
            TomlTree::Str(r.url),
        ).insert("username"@, TomlTree::Str(r.username)).insert("password"@, TomlTree::Str(r.password)),
    )
}

/// The documents of a list of remotes.
pub open spec fn remote_trees(remotes: Seq<RemoteView>) -> Seq<TomlTree> {
    Seq::new(remotes.len(), |i: int| remote_tree(remotes[i]))
}

/// The document of the remotes: their list under `remotes`.
pub open spec fn remotes_tree(remotes: Seq<RemoteView>) -> TomlTree {
    TomlTree::Table(
        Map::<Seq<char>, TomlTree>::empty().insert("remotes"@, TomlTree::Array(remote_trees(remotes))),
    )
}

/// The remote that a document holds: its four texts. Keys that are not
/// fields are passed over.
pub open spec fn tree_remote(t: TomlTree) -> Option<RemoteView> {
    match (tree_str(t, "name"@), tree_str(t, "url"@), tree_str(t, "username"@), tree_str(t, "password"@)) {
        (Some(name), Some(url), Some(username), Some(password)) => Some(
            RemoteView { name, url, username, password },
        ),
        _ => None,
    }
}

/// The remotes that a document holds, or `Malformed` where it has no list
/// under `remotes` or an item of the list is no remote.
pub open spec fn tree_remotes(t: TomlTree) -> Result<Seq<RemoteView>, Error> {
    match tree_field(t, "remotes"@) {
        Some(TomlTree::Array(items)) => if forall|i: int|
            0 <= i < items.len() ==> tree_remote(#[trigger] items[i]) is Some {
            Ok(Seq::new(items.len(), |i: int| tree_remote(items[i])->Some_0))
        } else {
            Err(Error::Malformed)
        },
        _ => Err(Error::Malformed),
    }
}

/// The text of the remotes.
pub open spec fn remotes_text(remotes: Seq<RemoteView>) -> Option<Seq<u8>> {
    document_text(remotes_tree(remotes))
}

/// The remotes that the bytes hold.
pub open spec fn text_remotes(bytes: Seq<u8>) -> Result<Seq<RemoteView>, Error> {
    match document_of(bytes) {
        Some(t) => tree_remotes(t),
        None => Err(Error::Malformed),
    }
}

proof fn reveal_remote_keys()
    ensures
        "name"@.len() == 4,
        "url"@.len() == 3,
        "username"@.len() == 8,
        "password"@.len() == 8,
        "remotes"@.len() == 7,
        "username"@[0] == 'u',
        "password"@[0] == 'p',
        is_plain_key("name"@),
        is_plain_key("url"@),
        is_plain_key("username"@),
        is_plain_key("password"@),
        is_plain_key("remotes"@),
{
    reveal_strlit("name");
    reveal_strlit("url");
    reveal_strlit("username");
    reveal_strlit("password");
    reveal_strlit("remotes");
}

/// Reading the document of a remote gives the remote back.
pub proof fn lemma_remote_tree_round_trip(r: RemoteView)
    ensures
        tree_remote(remote_tree(r)) == Some(r),
        is_record(remote_tree(r)),
{
    reveal_remote_keys();
    let t = remote_tree(r);
    assert(tree_str(t, "name"@) == Some(r.name));
    assert(tree_str(t, "url"@) == Some(r.url));
    assert(tree_str(t, "username"@) == Some(r.username));
    assert(tree_str(t, "password"@) == Some(r.password));
}

/// Reading the document of the remotes gives them back, and the document is
/// one of the plain documents.
pub proof fn lemma_remotes_tree_round_trip(remotes: Seq<RemoteView>)
    ensures
        tree_remotes(remotes_tree(remotes)) == Ok::<Seq<RemoteView>, Error>(remotes),
        is_plain_document(remotes_tree(remotes)),
{
    reveal_remote_keys();
    let t = remotes_tree(remotes);
    let items = remote_trees(remotes);
    assert(tree_field(t, "remotes"@) == Some(TomlTree::Array(items)));
    assert forall|i: int| 0 <= i < items.len() implies tree_remote(#[trigger] items[i]) == Some(remotes[i])
        && is_record(items[i]) by {
        lemma_remote_tree_round_trip(remotes[i]);
    }
    assert(Seq::new(items.len(), |i: int| tree_remote(items[i])->Some_0) =~= remotes);
    let fields = t->Table_0;
    if remotes.len() == 0 {
        assert(is_leaf(fields["remotes"@]));
    } else {
        assert(is_record_list(fields["remotes"@]));
    }
}

impl Clone for Remote {
    fn clone(&self) -> (r: Self)
        ensures
            r@ == self@,
    {
        Remote {
            name: self.name.clone(),
            url: self.url.clone(),
            credentials: Credentials {
                username: self.credentials.username.clone(),
                password: self.credentials.password.clone(),
            },
        }
    }
}

impl Remote {
    /// The document of this remote.
    pub fn to_toml_value(&self) -> (v: TomlValue)
        ensures
            v@ == remote_tree(self@),
            value_fits(v, 1),
    {
        proof {
            lemma_table_map_empty();
            lemma_fits_one_more(0);
        }
        let mut fields: Vec<(String, TomlValue)> = Vec::new();
        push_field(&mut fields, "name", TomlValue::Str(self.name.clone()));
        push_field(&mut fields, "url", TomlValue::Str(self.url.clone()));
        push_field(&mut fields, "username", TomlValue::Str(self.credentials.username.clone()));
        push_field(&mut fields, "password", TomlValue::Str(self.credentials.password.clone()));
        proof {
            lemma_table_tree(fields);
            assert(pairs_fit(fields@, 0));
        }
        TomlValue::Table(fields)
    }

    /// The remote that a document holds.
    pub fn from_toml_value(v: &TomlValue) -> (r: Option<Remote>)
        ensures
            match r {
                Some(x) => tree_remote(v@) == Some(x@),
                None => tree_remote(v@) is None,
            },
    {
        match (v.get_str("name"), v.get_str("url"), v.get_str("username"), v.get_str("password")) {
            (Some(name), Some(url), Some(username), Some(password)) => Some(
                Remote { name, url, credentials: Credentials { username, password } },
            ),
            _ => None,
        }
    }
}

impl Remotes {
    /// No remote.
    pub fn empty() -> (r: Remotes)
        ensures
            r@ == Seq::<RemoteView>::empty(),
    {
        let r = Remotes { remotes: Vec::new() };
        assert(r@ =~= Seq::<RemoteView>::empty());
        r
    }

    /// The document of the remotes.
    pub fn to_toml_value(&self) -> (v: TomlValue)
        ensures
            v@ == remotes_tree(self@),
            value_fits(v, 3),
    {
        let mut items: Vec<TomlValue> = Vec::new();
        let mut i: usize = 0;
        while i < self.remotes.len()
            invariant
                0 <= i <= self.remotes.len(),
                items@.len() == i,
                forall|j: int| 0 <= j < i ==> (#[trigger] items@[j]).tree() == remote_tree(self.remotes@[j]@),
                forall|j: int| 0 <= j < i ==> value_fits(#[trigger] items@[j], 1),
            decreases self.remotes.len() - i,
        {
            items.push(self.remotes[i].to_toml_value());
            i += 1;
        }
        proof {
            lemma_array_tree(items);
            assert(array_trees(items@) =~= remote_trees(self@));
            lemma_table_map_empty();
            lemma_fits_one_more(1);
            lemma_fits_one_more(2);
            assert(items_fit(items@, 1));
        }
        let mut fields: Vec<(String, TomlValue)> = Vec::new();
        push_field(&mut fields, "remotes", TomlValue::Array(items));
        proof {
            lemma_table_tree(fields);
            assert(pairs_fit(fields@, 2));
        }
        TomlValue::Table(fields)
    }

    /// The remotes that a document holds.
    pub fn from_toml_value(v: &TomlValue) -> (r: Result<Remotes, Error>)
        ensures
            match tree_remotes(v@) {
                Ok(remotes) => r matches Ok(x) && x@ == remotes,
                Err(e) => r matches Err(x) && x == e,
            },
    {
        let items = match v.get("remotes") {
            Some(list) => match list.as_array() {
                Some(items) => items,
                None => {
                    return Err(Error::Malformed);
                },
            },
            None => {
                return Err(Error::Malformed);
            },
        };
        let ghost trees = array_trees(items@);
        let mut remotes: Vec<Remote> = Vec::new();
        let mut i: usize = 0;
        while i < items.len()
            invariant
                0 <= i <= items.len(),
                remotes@.len() == i,
                trees == array_trees(items@),
                tree_field(v@, "remotes"@) == Some(TomlTree::Array(trees)),
                forall|j: int| 0 <= j < i ==> tree_remote(#[trigger] trees[j]) == Some(remotes@[j]@),
            decreases items.len() - i,
        {
            match Remote::from_toml_value(&items[i]) {
                Some(r) => {
                    remotes.push(r);
                },
                None => {
                    proof {
                        assert(tree_remote(trees[i as int]) is None);
                    }
                    return Err(Error::Malformed);
                },
            }
            i += 1;
        }
        let r = Remotes { remotes };
        proof {
            assert(r@ =~= Seq::new(trees.len(), |i: int| tree_remote(trees[i])->Some_0));
        }
        Ok(r)
    }

    /// The text of the remotes. Fails with `Malformed` exactly where the
    /// document has no text. The text that is returned reads back as these
    /// remotes.
    pub fn to_toml_bytes(&self) -> (r: Result<Vec<u8>, Error>)
        ensures
            match remotes_text(self@) {
                Some(bytes) => r matches Ok(v) && v@ == bytes && text_remotes(bytes) == Ok::<
                    Seq<RemoteView>,
                    Error,
                >(self@),
                None => r matches Err(e) && e == Error::Malformed,
            },
    {
        let v = self.to_toml_value();
        proof {
            lemma_remotes_tree_round_trip(self@);
            lemma_fits_deeper(v, 3, MAX_NESTING as nat);
        }
        v.to_bytes()
    }

    /// The remotes that the bytes hold.
    pub fn from_toml_bytes(bytes: &[u8]) -> (r: Result<Remotes, Error>)
        ensures
            match text_remotes(bytes@) {
                Ok(remotes) => r matches Ok(x) && x@ == remotes,
                Err(e) => r matches Err(x) && x == e,
            },
    {
        match TomlValue::from_bytes(bytes) {
            Ok(v) => Remotes::from_toml_value(&v),
            Err(_) => Err(Error::Malformed),
        }
    }
}

/// The remotes of a list, as far as place `n`.
proof fn lemma_remote_views_take(remotes: Seq<Remote>, n: int)
    requires
        0 <= n < remotes.len(),
    ensures
        remote_views(remotes).take(n + 1).drop_last() == remote_views(remotes).take(n),
        remote_views(remotes).take(n + 1).last() == remotes[n]@,
{
    assert(remote_views(remotes).take(n + 1).drop_last() =~= remote_views(remotes).take(n));
}

impl Remotes {
    /// The remotes without those that have the name.
    pub fn without(&self, name: &str) -> (r: Remotes)
        ensures
            r@ == without_name(self@, name@),
    {
        let wanted = name.to_owned();
        let mut remotes: Vec<Remote> = Vec::new();
        let mut i: usize = 0;
        while i < self.remotes.len()
            invariant
                0 <= i <= self.remotes.len(),
                wanted@ == name@,
                remote_views(remotes@) == without_name(self@.take(i as int), name@),
            decreases self.remotes.len() - i,
        {
            proof {
                lemma_remote_views_take(self.remotes@, i as int);
            }
            if !(self.remotes[i].name == wanted) {
                let remote = self.remotes[i].clone();
                proof {
                    assert(remote_views(remotes@.push(remote)) =~= remote_views(remotes@).push(remote@));
                }
                remotes.push(remote);
            }
            i += 1;
        }
        proof {
            assert(self@.take(self.remotes@.len() as int) =~= self@);
        }
        Remotes { remotes }
    }

    /// Adds a remote behind the others.
    pub fn push(&mut self, remote: Remote)
        ensures
            final(self)@ == old(self)@.push(remote@),
    {
        proof {
            assert(remote_views(self.remotes@.push(remote)) =~= remote_views(self.remotes@).push(remote@));
        }
        self.remotes.push(remote);
    }
}

} // verus!
