//! TOML documents as values of the library.
//!
//! The `toml` crate parses and writes the text. A document is handed over the
//! border as a tree of plain values, so that what is read from it and what is
//! put into it is decided here.

use vstd::prelude::*;
use vstd::string::*;
use crate::error::Error;

verus! {

broadcast use vstd::std_specs::vec::axiom_vec_index_decreases;

#[verifier::external_type_specification]
#[verifier::external_body]
pub struct ExTomlValue(toml::Value);

/// A TOML value without floats and dates. A table is a list of keys with
/// their values; where a key stands twice, the later one counts.
#[derive(Debug)]
pub enum TomlValue {
    Str(String),
    Int(i64),
    Bool(bool),
    Array(Vec<TomlValue>),
    Table(Vec<(String, TomlValue)>),
}

/// What a `TomlValue` stands for: the same tree with texts as sequences of
/// characters and tables as maps.
pub enum TomlTree {
    Str(Seq<char>),
    Int(i64),
    Bool(bool),
    Array(Seq<TomlTree>),
    Table(Map<Seq<char>, TomlTree>),
}

/// Whether some pair of `pairs` has the key.
pub open spec fn has_key(pairs: Seq<(String, TomlValue)>, key: Seq<char>) -> bool {
    exists|i: int| 0 <= i < pairs.len() && (#[trigger] pairs[i]).0@ == key
}

/// Whether `i` is the place of the last pair of `pairs` that has the key.
pub open spec fn is_last_with_key(pairs: Seq<(String, TomlValue)>, key: Seq<char>, i: int) -> bool {
    &&& 0 <= i < pairs.len()
    &&& pairs[i].0@ == key
    &&& forall|j: int| i < j < pairs.len() ==> (#[trigger] pairs[j]).0@ != key
}

/// The place of the last pair of `pairs` that has the key.
pub open spec fn last_with_key(pairs: Seq<(String, TomlValue)>, key: Seq<char>) -> int {
    choose|i: int| is_last_with_key(pairs, key, i)
}

impl TomlValue {
    /// The tree that this value stands for.
    pub open spec fn tree(self) -> TomlTree
        decreases self,
    {
        match self {
            TomlValue::Str(s) => TomlTree::Str(s@),
            TomlValue::Int(i) => TomlTree::Int(i),
            TomlValue::Bool(b) => TomlTree::Bool(b),
            TomlValue::Array(a) => TomlTree::Array(
                Seq::new(
                    a.len() as nat,
                    |i: int|
                        if 0 <= i < a.len() {
                            a[i].tree()
                        } else {
                            TomlTree::Bool(false)
                        },
                ),
            ),
            TomlValue::Table(t) => TomlTree::Table(
                Map::new(
                    |k: Seq<char>| has_key(t@, k),
                    |k: Seq<char>|
                        {
                            let i = last_with_key(t@, k);
                            if 0 <= i < t.len() {
                                t[i].1.tree()
                            } else {
                                TomlTree::Bool(false)
                            }
                        },
                ),
            ),
        }
    }
}

impl View for TomlValue {
    type V = TomlTree;

    open spec fn view(&self) -> TomlTree {
        self.tree()
    }
}

/// The tree that a value of the `toml` crate holds, or `None` where a float or
/// a date stands somewhere in it.
pub uninterp spec fn toml_tree(v: toml::Value) -> Option<TomlTree>;

/// The tree that the `toml` crate reads from the bytes of a document, or
/// `None` where it rejects them or finds a float or a date.
pub uninterp spec fn toml_document(bytes: Seq<u8>) -> Option<TomlTree>;

/// The bytes that the `toml` crate writes for a tree, or `None` where it
/// refuses to write it.
pub uninterp spec fn toml_text(tree: TomlTree) -> Option<Seq<u8>>;

/// A key that is written bare: not empty, and made of letters, digits, `_`
/// and `-`.
pub open spec fn is_plain_key(key: Seq<char>) -> bool {
    &&& key.len() > 0
    &&& forall|i: int|
        0 <= i < key.len() ==> {
            let c = #[trigger] key[i];
            ('a' <= c <= 'z') || ('A' <= c <= 'Z') || ('0' <= c <= '9') || c == '_' || c == '-'
        }
}

/// A text, a number, a truth value, or a list of texts.
pub open spec fn is_leaf(tree: TomlTree) -> bool {
    match tree {
        TomlTree::Str(_) | TomlTree::Int(_) | TomlTree::Bool(_) => true,
        TomlTree::Array(items) => forall|i: int| 0 <= i < items.len() ==> (#[trigger] items[i]) is Str,
        TomlTree::Table(_) => false,
    }
}

/// A table with finitely many plain keys, each with a leaf.
pub open spec fn is_record(tree: TomlTree) -> bool {
    &&& tree matches TomlTree::Table(fields)
    &&& fields.dom().finite()
    &&& forall|k: Seq<char>| #[trigger] fields.contains_key(k) ==> is_plain_key(k) && is_leaf(fields[k])
}

/// A list of records that is not empty.
pub open spec fn is_record_list(tree: TomlTree) -> bool {
    &&& tree matches TomlTree::Array(items)
    &&& items.len() > 0
    &&& forall|i: int| 0 <= i < items.len() ==> is_record(#[trigger] items[i])
}

/// The documents that this library writes: a table with finitely many plain
/// keys, each with a leaf, a record, or a list of records.
pub open spec fn is_plain_document(tree: TomlTree) -> bool {
    &&& tree matches TomlTree::Table(fields)
    &&& fields.dom().finite()
    &&& forall|k: Seq<char>| #[trigger]
        fields.contains_key(k) ==> is_plain_key(k) && (is_leaf(fields[k]) || is_record(fields[k])
            || is_record_list(fields[k]))
}

/// Where a scan of the text of a document stands.
#[derive(Clone, Copy, PartialEq, Eq, Debug, Structural)]
pub enum ScanMode {
    /// Outside strings and comments.
    Plain,
    /// In a comment, up to the end of the line.
    Comment,
    /// Behind one delimiter that may open a string.
    Opening,
    /// Behind two delimiters: an empty string, or the opening of a string of
    /// several lines.
    OpeningTwice,
    /// In a string of one line.
    Single,
    /// Behind a backslash in a string of one line.
    SingleEscape,
    /// In a string of several lines, behind `run` delimiters in a row.
    Multi { run: u8 },
    /// Behind a backslash in a string of several lines.
    MultiEscape,
    /// Behind the three delimiters that close a string of several lines and
    /// `extra` more, which still belong to it.
    Closed { extra: u8 },
}

/// What a scan has seen: where it stands; whether the string it is in is a
/// basic one, in double quotes, or a literal one, in single quotes; how many
/// brackets and braces are open; how many dots the line holds so far; and the
/// greatest sum of the two that was reached.
pub struct ScanState {
    pub mode: ScanMode,
    pub basic: bool,
    pub open: int,
    pub dots: int,
    pub deepest: int,
}

/// The deepest nesting of arrays, inline tables and dotted keys that is read.
pub const MAX_NESTING: usize = 64;

/// The scan before the first byte.
pub open spec fn scan_start() -> ScanState {
    ScanState { mode: ScanMode::Plain, basic: false, open: 0, dots: 0, deepest: 0 }
}

/// The scan after a byte that stands outside strings and comments: a bracket
/// or a brace opens or closes, a dot counts for its line, a line end ends the
/// line, a sign opens a comment and a quote a string.
pub open spec fn scan_plain(s: ScanState, b: u8) -> ScanState {
    if b == 0x5b || b == 0x7b {
        ScanState {
            mode: ScanMode::Plain,
            open: s.open + 1,
            deepest: if s.open + 1 + s.dots > s.deepest {
                s.open + 1 + s.dots
            } else {
                s.deepest
            },
            ..s
        }
    } else if b == 0x5d || b == 0x7d {
        ScanState {
            mode: ScanMode::Plain,
            open: if s.open > 0 {
                s.open - 1
            } else {
                0
            },
            ..s
        }
    } else if b == 0x2e {
        ScanState {
            mode: ScanMode::Plain,
            dots: s.dots + 1,
            deepest: if s.open + s.dots + 1 > s.deepest {
                s.open + s.dots + 1
            } else {
                s.deepest
            },
            ..s
        }
    } else if b == 0x0a {
        ScanState { mode: ScanMode::Plain, dots: 0, ..s }
    } else if b == 0x23 {
        ScanState { mode: ScanMode::Comment, ..s }
    } else if b == 0x22 {
        ScanState { mode: ScanMode::Opening, basic: true, ..s }
    } else if b == 0x27 {
        ScanState { mode: ScanMode::Opening, basic: false, ..s }
    } else {
        ScanState { mode: ScanMode::Plain, ..s }
    }
}

/// The delimiter of the string that the scan is in.
pub open spec fn scan_delimiter(s: ScanState) -> u8 {
    if s.basic {
        0x22
    } else {
        0x27
    }
}

/// The scan after a byte inside a string of one line: the delimiter ends it,
/// a backslash in a basic string takes the next byte with it, and a line end
/// ends it too.
pub open spec fn scan_single(s: ScanState, b: u8) -> ScanState {
    if b == scan_delimiter(s) {
        ScanState { mode: ScanMode::Plain, ..s }
    } else if b == 0x5c && s.basic {
        ScanState { mode: ScanMode::SingleEscape, ..s }
    } else if b == 0x0a {
        ScanState { mode: ScanMode::Plain, dots: 0, ..s }
    } else {
        ScanState { mode: ScanMode::Single, ..s }
    }
}

/// The scan after one more byte, as the `toml` crate's tokenizer divides the
/// text into strings, comments and the rest. Only what stands outside strings
/// and comments opens, closes or counts.
pub open spec fn scan_step(s: ScanState, b: u8) -> ScanState {
    match s.mode {
        ScanMode::Plain => scan_plain(s, b),
        ScanMode::Comment => if b == 0x0a {
            ScanState { mode: ScanMode::Plain, dots: 0, ..s }
        } else {
            s
        },
        ScanMode::Opening => if b == scan_delimiter(s) {
            ScanState { mode: ScanMode::OpeningTwice, ..s }
        } else {
            scan_single(s, b)
        },
        ScanMode::OpeningTwice => if b == scan_delimiter(s) {
            ScanState { mode: ScanMode::Multi { run: 0 }, ..s }
        } else {
            scan_plain(s, b)
        },
        ScanMode::Single => scan_single(s, b),
        ScanMode::SingleEscape => ScanState { mode: ScanMode::Single, ..s },
        ScanMode::Multi { run } => if b == scan_delimiter(s) {
            if run >= 2 {
                ScanState { mode: ScanMode::Closed { extra: 0 }, ..s }
            } else {
                ScanState { mode: ScanMode::Multi { run: (run + 1) as u8 }, ..s }
            }
        } else if b == 0x5c && s.basic {
            ScanState { mode: ScanMode::MultiEscape, ..s }
        } else {
            ScanState { mode: ScanMode::Multi { run: 0 }, ..s }
        },
        ScanMode::MultiEscape => ScanState { mode: ScanMode::Multi { run: 0 }, ..s },
        ScanMode::Closed { extra } => if b == scan_delimiter(s) {
            if extra >= 1 {
                ScanState { mode: ScanMode::Plain, ..s }
            } else {
                ScanState { mode: ScanMode::Closed { extra: 1 }, ..s }
            }
        } else {
            scan_plain(s, b)
        },
    }
}

/// The scan after all the bytes.
pub open spec fn scan(bytes: Seq<u8>) -> ScanState
    decreases bytes.len(),
{
    if bytes.len() == 0 {
        scan_start()
    } else {
        scan_step(scan(bytes.drop_last()), bytes.last())
    }
}

/// How deep a text nests: the most brackets and braces that are open at one
/// place outside strings and comments, together with the dots of the line up
/// to that place.
pub open spec fn nesting(bytes: Seq<u8>) -> int {
    scan(bytes).deepest
}

/// A text that nests no deeper than is read.
pub open spec fn is_shallow(bytes: Seq<u8>) -> bool {
    nesting(bytes) <= MAX_NESTING
}

/// The tree of a document that is read: that of a text that is shallow and
/// that the `toml` crate reads.
pub open spec fn document_of(bytes: Seq<u8>) -> Option<TomlTree> {
    if is_shallow(bytes) {
        toml_document(bytes)
    } else {
        None
    }
}

/// The text of a document that is written: what the `toml` crate writes for
/// the tree, where that is shallow.
pub open spec fn document_text(tree: TomlTree) -> Option<Seq<u8>> {
    match toml_text(tree) {
        Some(bytes) => if is_shallow(bytes) {
            Some(bytes)
        } else {
            None
        },
        None => None,
    }
}

/// Whether the text nests no deeper than is read.
pub fn is_shallow_text(bytes: &[u8]) -> (b: bool)
    ensures
        b == is_shallow(bytes@),
{
    let mut mode = ScanMode::Plain;
    let mut basic = false;
    let mut open: usize = 0;
    let mut dots: usize = 0;
    let mut deepest: usize = 0;
    let mut i: usize = 0;
    proof {
        assert(bytes@.take(0) =~= Seq::<u8>::empty());
    }
    while i < bytes.len()
        invariant
            0 <= i <= bytes.len(),
            open + dots <= i,
            deepest <= i,
            scan(bytes@.take(i as int)) == (ScanState {
                mode,
                basic,
                open: open as int,
                dots: dots as int,
                deepest: deepest as int,
            }),
        decreases bytes.len() - i,
    {
        let b = bytes[i];
        let ghost before = scan(bytes@.take(i as int));
        proof {
            assert(bytes@.take(i + 1).drop_last() =~= bytes@.take(i as int));
            assert(bytes@.take(i + 1).last() == b);
        }
        let delimiter: u8 = if basic {
            0x22
        } else {
            0x27
        };
        let mut plain = false;
        let mut single = false;
        match mode {
            ScanMode::Plain => {
                plain = true;
            },
            ScanMode::Comment => {
                if b == 0x0a {
                    mode = ScanMode::Plain;
                    dots = 0;
                }
            },
            ScanMode::Opening => {
                if b == delimiter {
                    mode = ScanMode::OpeningTwice;
                } else {
                    single = true;
                }
            },
            ScanMode::OpeningTwice => {
                if b == delimiter {
                    mode = ScanMode::Multi { run: 0 };
                } else {
                    plain = true;
                }
            },
            ScanMode::Single => {
                single = true;
            },
            ScanMode::SingleEscape => {
                mode = ScanMode::Single;
            },
            ScanMode::Multi { run } => {
                if b == delimiter {
                    if run >= 2 {
                        mode = ScanMode::Closed { extra: 0 };
                    } else {
                        mode = ScanMode::Multi { run: run + 1 };
                    }
                } else if b == 0x5c && basic {
                    mode = ScanMode::MultiEscape;
                } else {
                    mode = ScanMode::Multi { run: 0 };
                }
            },
            ScanMode::MultiEscape => {
                mode = ScanMode::Multi { run: 0 };
            },
            ScanMode::Closed { extra } => {
                if b == delimiter {
                    if extra >= 1 {
                        mode = ScanMode::Plain;
                    } else {
                        mode = ScanMode::Closed { extra: 1 };
                    }
                } else {
                    plain = true;
                }
            },
        }
        if single {
            if b == delimiter {
                mode = ScanMode::Plain;
            } else if b == 0x5c && basic {
                mode = ScanMode::SingleEscape;
            } else if b == 0x0a {
                mode = ScanMode::Plain;
                dots = 0;
            } else {
                mode = ScanMode::Single;
            }
        }
        if plain {
            mode = ScanMode::Plain;
            if b == 0x5b || b == 0x7b {
                open += 1;
                if open + dots > deepest {
                    deepest = open + dots;
                }
            } else if b == 0x5d || b == 0x7d {
                if open > 0 {
                    open -= 1;
                }
            } else if b == 0x2e {
                dots += 1;
                if open + dots > deepest {
                    deepest = open + dots;
                }
            } else if b == 0x0a {
                dots = 0;
            } else if b == 0x23 {
                mode = ScanMode::Comment;
            } else if b == 0x22 {
                mode = ScanMode::Opening;
                basic = true;
            } else if b == 0x27 {
                mode = ScanMode::Opening;
                basic = false;
            }
        }
        proof {
            assert(scan(bytes@.take(i + 1)) == scan_step(before, b));
        }
        i += 1;
    }
    proof {
        assert(bytes@.take(bytes@.len() as int) =~= bytes@);
    }
    deepest <= MAX_NESTING
}

/// Whether a value nests no deeper than `depth`: a text, a number or a truth
/// value always; a list or a table where `depth` is not 0 and every value in
/// it, a repeated key's too, nests no deeper than `depth - 1`.
pub open spec fn value_fits(v: TomlValue, depth: nat) -> bool
    decreases depth,
{
    match v {
        TomlValue::Array(a) => depth > 0 && forall|i: int|
            0 <= i < a@.len() ==> value_fits(#[trigger] a@[i], (depth - 1) as nat),
        TomlValue::Table(t) => depth > 0 && forall|i: int|
            0 <= i < t@.len() ==> value_fits((#[trigger] t@[i]).1, (depth - 1) as nat),
        _ => true,
    }
}

/// Whether every value of a list nests no deeper than `depth`.
pub open spec fn items_fit(items: Seq<TomlValue>, depth: nat) -> bool {
    forall|i: int| 0 <= i < items.len() ==> value_fits(#[trigger] items[i], depth)
}

/// Whether every value of a list of keys with values nests no deeper than
/// `depth`.
pub open spec fn pairs_fit(pairs: Seq<(String, TomlValue)>, depth: nat) -> bool {
    forall|i: int| 0 <= i < pairs.len() ==> value_fits((#[trigger] pairs[i]).1, depth)
}

/// A value that nests no deeper than one depth nests no deeper than a
/// greater one.
pub proof fn lemma_fits_deeper(v: TomlValue, depth: nat, more: nat)
    requires
        value_fits(v, depth),
        depth <= more,
    ensures
        value_fits(v, more),
    decreases depth,
{
    match v {
        TomlValue::Array(a) => {
            assert forall|i: int| 0 <= i < a@.len() implies value_fits(#[trigger] a@[i], (more - 1) as nat) by {
                lemma_fits_deeper(a@[i], (depth - 1) as nat, (more - 1) as nat);
            }
        },
        TomlValue::Table(t) => {
            assert forall|i: int| 0 <= i < t@.len() implies value_fits((#[trigger] t@[i]).1, (more - 1) as nat) by {
                lemma_fits_deeper(t@[i].1, (depth - 1) as nat, (more - 1) as nat);
            }
        },
        _ => {},
    }
}

/// The values of a list nest less deep than the list.
pub proof fn lemma_item_fits(v: TomlValue, depth: nat, i: int)
    requires
        value_fits(v, depth),
        v is Array,
        0 <= i < v->Array_0@.len(),
    ensures
        depth > 0,
        value_fits(v->Array_0@[i], (depth - 1) as nat),
{
    match v {
        TomlValue::Array(a) => {
            assert(value_fits(a@[i], (depth - 1) as nat));
        },
        _ => {},
    }
}

/// The values of a table nest less deep than the table.
pub proof fn lemma_field_fits(v: TomlValue, depth: nat, i: int)
    requires
        value_fits(v, depth),
        v is Table,
        0 <= i < v->Table_0@.len(),
    ensures
        depth > 0,
        value_fits(v->Table_0@[i].1, (depth - 1) as nat),
{
    match v {
        TomlValue::Table(t) => {
            assert(value_fits(t@[i].1, (depth - 1) as nat));
        },
        _ => {},
    }
}

/// A table nests one deeper than its values, and so does a list.
pub proof fn lemma_fits_one_more(depth: nat)
    ensures
        forall|t: Vec<(String, TomlValue)>| #[trigger]
            pairs_fit(t@, depth) ==> value_fits(TomlValue::Table(t), depth + 1),
        forall|a: Vec<TomlValue>| #[trigger] items_fit(a@, depth) ==> value_fits(TomlValue::Array(a), depth + 1),
{
    assert forall|t: Vec<(String, TomlValue)>| #[trigger] pairs_fit(t@, depth) implies value_fits(
        TomlValue::Table(t),
        depth + 1,
    ) by {
        assert forall|i: int| 0 <= i < t@.len() implies value_fits(
            (#[trigger] t@[i]).1,
            ((depth + 1) - 1) as nat,
        ) by {}
    }
    assert forall|a: Vec<TomlValue>| #[trigger] items_fit(a@, depth) implies value_fits(
        TomlValue::Array(a),
        depth + 1,
    ) by {
        assert forall|i: int| 0 <= i < a@.len() implies value_fits(#[trigger] a@[i], ((depth + 1) - 1) as nat) by {}
    }
}

/// `toml::from_slice` of the `toml` crate, read as a `toml::Value`. Trusted:
/// where it succeeds, the value holds the tree named for the bytes; where it
/// fails, the bytes have no tree. The parser calls itself for each array and
/// inline table that is open and for each part of a dotted key, so texts that
/// nest deeper than is read are left out.
#[verifier::external_body]
fn toml_parse(bytes: &[u8]) -> (r: Option<toml::Value>)
    requires
        is_shallow(bytes@),
    ensures
        r matches Some(v) ==> toml_tree(v) == toml_document(bytes@),
        r is None ==> toml_document(bytes@) is None,
{
    toml::from_slice::<toml::Value>(bytes).ok()
}

/// `toml::to_vec` of the `toml` crate, on a `toml::Value`. Trusted: for a value
/// without floats and dates, the bytes are those named for its tree, and a
/// failure stands where the tree has none; and what it writes for a plain
/// document, the same crate reads back as that document.
#[verifier::external_body]
fn toml_write(v: &toml::Value) -> (r: Option<Vec<u8>>)
    ensures
        toml_tree(*v) matches Some(t) ==> (r matches Some(bytes) ==> toml_text(t) == Some(bytes@)),
        toml_tree(*v) matches Some(t) ==> (r is None ==> toml_text(t) is None),
        toml_tree(*v) matches Some(t) ==> (r matches Some(bytes) ==> (is_plain_document(t)
            ==> toml_document(bytes@) == Some(t))),
{
    toml::to_vec(v).ok()
}

/// Builds the `toml::Value` with the same tree, variant by variant; the
/// pairs of a table are put into a `toml::value::Table` with its `insert`, in
/// their order, which sets the value of a key that is there already.
/// Trusted: the value holds the tree of `x`. The function calls itself once
/// for each level, and so does the crate when it writes the value, so values
/// that nest deeper than is read are left out.
#[verifier::external_body]
fn toml_lower(x: &TomlValue) -> (v: toml::Value)
    requires
        value_fits(*x, MAX_NESTING as nat),
    ensures
        toml_tree(v) == Some(x@),
{
    match x {
        TomlValue::Str(s) => toml::Value::String(s.clone()),
        TomlValue::Int(i) => toml::Value::Integer(*i),
        TomlValue::Bool(b) => toml::Value::Boolean(*b),
        TomlValue::Array(a) => toml::Value::Array(a.iter().map(toml_lower).collect()),
        TomlValue::Table(t) => {
            let mut table = toml::value::Table::new();
            for p in t.iter() {
                table.insert(p.0.clone(), toml_lower(&p.1));
            }
            toml::Value::Table(table)
        },
    }
}

/// Reads a `toml::Value` into a `TomlValue`, variant by variant; the pairs
/// of a `toml::value::Table` are taken in the order in which it hands them
/// out. Trusted: the result stands for the tree that the value holds, and
/// there is none exactly where a `Float` or a `Datetime` stands in the value.
#[verifier::external_body]
fn toml_lift(v: &toml::Value) -> (r: Option<TomlValue>)
    ensures
        r matches Some(x) ==> toml_tree(*v) == Some(x@),
        r is None ==> toml_tree(*v) is None,
{
    match v {
        toml::Value::String(s) => Some(TomlValue::Str(s.clone())),
        toml::Value::Integer(i) => Some(TomlValue::Int(*i)),
        toml::Value::Boolean(b) => Some(TomlValue::Bool(*b)),
        toml::Value::Array(a) => a.iter().map(toml_lift).collect::<Option<Vec<_>>>().map(TomlValue::Array),
        toml::Value::Table(t) => t.iter().map(|p| Some((p.0.clone(), toml_lift(p.1)?)))
            .collect::<Option<Vec<_>>>().map(TomlValue::Table),
        toml::Value::Float(_) => None,
        toml::Value::Datetime(_) => None,
    }
}

/// The map that a list of keys with values stands for.
pub open spec fn table_map(pairs: Seq<(String, TomlValue)>) -> Map<Seq<char>, TomlTree> {
    Map::new(
        |k: Seq<char>| has_key(pairs, k),
        |k: Seq<char>|
            {
                let i = last_with_key(pairs, k);
                if 0 <= i < pairs.len() {
                    pairs[i].1.tree()
                } else {
                    TomlTree::Bool(false)
                }
            },
    )
}

/// The trees of a list of values.
pub open spec fn array_trees(items: Seq<TomlValue>) -> Seq<TomlTree> {
    Seq::new(items.len(), |i: int| items[i].tree())
}

/// The value under `key` where `tree` is a table that has the key.
pub open spec fn tree_field(tree: TomlTree, key: Seq<char>) -> Option<TomlTree> {
    match tree {
        TomlTree::Table(fields) => if fields.contains_key(key) {
            Some(fields[key])
        } else {
            None
        },
        _ => None,
    }
}

/// The text under `key`, where there is one.
pub open spec fn tree_str(tree: TomlTree, key: Seq<char>) -> Option<Seq<char>> {
    match tree_field(tree, key) {
        Some(TomlTree::Str(s)) => Some(s),
        _ => None,
    }
}

/// The number under `key`, where there is one.
pub open spec fn tree_int(tree: TomlTree, key: Seq<char>) -> Option<i64> {
    match tree_field(tree, key) {
        Some(TomlTree::Int(i)) => Some(i),
        _ => None,
    }
}

/// The texts of a list of texts.
pub open spec fn tree_strings(tree: TomlTree) -> Option<Seq<Seq<char>>> {
    match tree {
        TomlTree::Array(items) => if forall|i: int| 0 <= i < items.len() ==> (#[trigger] items[i]) is Str {
            Some(Seq::new(items.len(), |i: int| items[i]->Str_0))
        } else {
            None
        },
        _ => None,
    }
}

/// The views of a list of texts.
pub open spec fn text_views(texts: Seq<String>) -> Seq<Seq<char>> {
    Seq::new(texts.len(), |i: int| texts[i]@)
}

/// The list of texts as a tree.
pub open spec fn strings_tree(texts: Seq<Seq<char>>) -> TomlTree {
    TomlTree::Array(Seq::new(texts.len(), |i: int| TomlTree::Str(texts[i])))
}

pub proof fn lemma_last_with_key_unique(pairs: Seq<(String, TomlValue)>, key: Seq<char>, i: int)
    requires
        is_last_with_key(pairs, key, i),
    ensures
        last_with_key(pairs, key) == i,
        has_key(pairs, key),
{
    let j = last_with_key(pairs, key);
    assert(is_last_with_key(pairs, key, j));
    if j < i {
        assert(pairs[i].0@ != key);
    }
    if i < j {
        assert(pairs[j].0@ != key);
    }
}

pub proof fn lemma_has_key_has_last(pairs: Seq<(String, TomlValue)>, key: Seq<char>)
    requires
        has_key(pairs, key),
    ensures
        is_last_with_key(pairs, key, last_with_key(pairs, key)),
    decreases pairs.len(),
{
    let i = choose|i: int| 0 <= i < pairs.len() && (#[trigger] pairs[i]).0@ == key;
    if pairs.last().0@ == key {
        assert(is_last_with_key(pairs, key, pairs.len() - 1));
    } else {
        let front = pairs.drop_last();
        assert(front[i].0@ == key);
        lemma_has_key_has_last(front, key);
        let j = last_with_key(front, key);
        assert(is_last_with_key(pairs, key, j)) by {
            assert forall|m: int| j < m < pairs.len() implies (#[trigger] pairs[m]).0@ != key by {
                if m < front.len() {
                    assert(front[m].0@ != key);
                }
            }
        }
    }
}

pub proof fn lemma_table_tree(pairs: Vec<(String, TomlValue)>)
    ensures
        TomlValue::Table(pairs)@ == TomlTree::Table(table_map(pairs@)),
{
    let a = TomlValue::Table(pairs).tree()->Table_0;
    let b = table_map(pairs@);
    assert(a =~= b);
}

pub proof fn lemma_array_tree(items: Vec<TomlValue>)
    ensures
        TomlValue::Array(items)@ == TomlTree::Array(array_trees(items@)),
{
    let a = TomlValue::Array(items).tree()->Array_0;
    let b = array_trees(items@);
    assert(a =~= b);
}

/// Appending a pair sets its key in the map of the list.
pub proof fn lemma_table_map_push(pairs: Seq<(String, TomlValue)>, pair: (String, TomlValue))
    ensures
        table_map(pairs.push(pair)) == table_map(pairs).insert(pair.0@, pair.1.tree()),
{
    let longer = pairs.push(pair);
    let a = table_map(longer);
    let b = table_map(pairs).insert(pair.0@, pair.1.tree());
    assert forall|k: Seq<char>| a.contains_key(k) == b.contains_key(k) by {
        if has_key(longer, k) {
            let i = choose|i: int| 0 <= i < longer.len() && (#[trigger] longer[i]).0@ == k;
            if i < pairs.len() {
                assert(pairs[i].0@ == k);
            }
        }
        if has_key(pairs, k) {
            let i = choose|i: int| 0 <= i < pairs.len() && (#[trigger] pairs[i]).0@ == k;
            assert(longer[i].0@ == k);
        }
        if k == pair.0@ {
            assert(longer[pairs.len() as int].0@ == k);
        }
    }
    assert forall|k: Seq<char>| a.contains_key(k) implies a[k] == b[k] by {
        if k == pair.0@ {
            assert(is_last_with_key(longer, k, pairs.len() as int));
            lemma_last_with_key_unique(longer, k, pairs.len() as int);
        } else {
            assert(has_key(pairs, k));
            lemma_has_key_has_last(pairs, k);
            let j = last_with_key(pairs, k);
            assert(is_last_with_key(longer, k, j)) by {
                assert(longer[j] == pairs[j]);
                assert forall|m: int| j < m < longer.len() implies (#[trigger] longer[m]).0@ != k by {
                    if m < pairs.len() {
                        assert(pairs[m].0@ != k);
                    }
                }
            }
            lemma_last_with_key_unique(longer, k, j);
        }
    }
    assert(a =~= b);
}

pub proof fn lemma_table_map_empty()
    ensures
        table_map(Seq::<(String, TomlValue)>::empty()) == Map::<Seq<char>, TomlTree>::empty(),
{
    assert(table_map(Seq::<(String, TomlValue)>::empty()) =~= Map::<Seq<char>, TomlTree>::empty());
}

/// The place of the last pair that has the key.
fn find_last(pairs: &Vec<(String, TomlValue)>, key: &str) -> (r: Option<usize>)
    ensures
        match r {
            Some(i) => is_last_with_key(pairs@, key@, i as int) && last_with_key(pairs@, key@) == i,
            None => !has_key(pairs@, key@),
        },
{
    let wanted = key.to_owned();
    let mut i: usize = pairs.len();
    while i > 0
        invariant
            0 <= i <= pairs.len(),
            wanted@ == key@,
            forall|j: int| i <= j < pairs.len() ==> (#[trigger] pairs@[j]).0@ != key@,
        decreases i,
    {
        i -= 1;
        if pairs[i].0 == wanted {
            proof {
                assert(is_last_with_key(pairs@, key@, i as int));
                lemma_last_with_key_unique(pairs@, key@, i as int);
            }
            return Some(i);
        }
    }
    proof {
        if has_key(pairs@, key@) {
            let j = choose|j: int| 0 <= j < pairs@.len() && (#[trigger] pairs@[j]).0@ == key@;
            assert(pairs@[j].0@ != key@);
        }
    }
    None
}

/// Adds `key` with `value` to a list of keys with values.
pub fn push_field(pairs: &mut Vec<(String, TomlValue)>, key: &str, value: TomlValue)
    ensures
        table_map(final(pairs)@) == table_map(old(pairs)@).insert(key@, value@),
        final(pairs)@.len() == old(pairs)@.len() + 1,
        forall|depth: nat|
            pairs_fit(old(pairs)@, depth) && value_fits(value, depth) ==> #[trigger] pairs_fit(
                final(pairs)@,
                depth,
            ),
{
    let owned = key.to_owned();
    proof {
        lemma_table_map_push(pairs@, (owned, value));
    }
    let ghost before = pairs@;
    pairs.push((owned, value));
    proof {
        let after = pairs@;
        assert forall|depth: nat| pairs_fit(before, depth) && value_fits(value, depth) implies #[trigger] pairs_fit(
            after,
            depth,
        ) by {
            assert forall|i: int| 0 <= i < after.len() implies value_fits((#[trigger] after[i]).1, depth) by {
                if i < before.len() {
                    assert(after[i] == before[i]);
                }
            }
        }
    }
}

/// The list of texts as a value.
pub fn strings_value(texts: &Vec<String>) -> (v: TomlValue)
    ensures
        v@ == strings_tree(text_views(texts@)),
        value_fits(v, 1),
{
    let mut items: Vec<TomlValue> = Vec::new();
    let mut i: usize = 0;
    while i < texts.len()
        invariant
            0 <= i <= texts.len(),
            items@.len() == i,
            forall|j: int| 0 <= j < i ==> (#[trigger] items@[j]).tree() == TomlTree::Str(texts@[j]@),
            forall|j: int| 0 <= j < i ==> (#[trigger] items@[j]) is Str,
        decreases texts.len() - i,
    {
        items.push(TomlValue::Str(texts[i].clone()));
        i += 1;
    }
    proof {
        lemma_array_tree(items);
        assert(array_trees(items@) =~= strings_tree(text_views(texts@))->Array_0);
        assert forall|j: int| 0 <= j < items@.len() implies value_fits(#[trigger] items@[j], 0) by {
            assert(items@[j] is Str);
        }
    }
    TomlValue::Array(items)
}

impl TomlValue {
    /// The value under `key` of a table: the last one where the key stands
    /// more than once.
    pub fn get(&self, key: &str) -> (r: Option<&TomlValue>)
        ensures
            match r {
                Some(v) => tree_field(self@, key@) == Some(v@),
                None => tree_field(self@, key@) is None,
            },
    {
        match self {
            TomlValue::Table(pairs) => {
                proof {
                    lemma_table_tree(*pairs);
                }
                match find_last(pairs, key) {
                    Some(i) => Some(&pairs[i].1),
                    None => None,
                }
            },
            _ => None,
        }
    }

    /// The text under `key` of a table.
    pub fn get_str(&self, key: &str) -> (r: Option<String>)
        ensures
            match r {
                Some(s) => tree_str(self@, key@) == Some(s@),
                None => tree_str(self@, key@) is None,
            },
    {
        match self.get(key) {
            Some(TomlValue::Str(s)) => Some(s.clone()),
            _ => None,
        }
    }

    /// The number under `key` of a table.
    pub fn get_int(&self, key: &str) -> (r: Option<i64>)
        ensures
            r == tree_int(self@, key@),
    {
        match self.get(key) {
            Some(TomlValue::Int(i)) => Some(*i),
            _ => None,
        }
    }

    /// The items of a list.
    pub fn as_array(&self) -> (r: Option<&Vec<TomlValue>>)
        ensures
            match r {
                Some(items) => self@ == TomlTree::Array(array_trees(items@)),
                None => !(self@ is Array),
            },
    {
        match self {
            TomlValue::Array(items) => {
                proof {
                    lemma_array_tree(*items);
                }
                Some(items)
            },
            _ => None,
        }
    }

    /// The texts of a list of texts.
    pub fn as_strings(&self) -> (r: Option<Vec<String>>)
        ensures
            match r {
                Some(texts) => tree_strings(self@) == Some(text_views(texts@)),
                None => tree_strings(self@) is None,
            },
    {
        match self {
            TomlValue::Array(items) => {
                proof {
                    lemma_array_tree(*items);
                }
                let mut texts: Vec<String> = Vec::new();
                let mut i: usize = 0;
                while i < items.len()
                    invariant
                        0 <= i <= items.len(),
                        texts@.len() == i,
                        self@ == TomlTree::Array(array_trees(items@)),
                        forall|j: int| 0 <= j < i ==> (#[trigger] items@[j]).tree() == TomlTree::Str(texts@[j]@),
                    decreases items.len() - i,
                {
                    match &items[i] {
                        TomlValue::Str(s) => {
                            texts.push(s.clone());
                        },
                        _ => {
                            proof {
                                assert(!(array_trees(items@)[i as int] is Str));
                            }
                            return None;
                        },
                    }
                    i += 1;
                }
                proof {
                    let trees = array_trees(items@);
                    assert forall|j: int| 0 <= j < trees.len() implies (#[trigger] trees[j]) is Str by {
                        assert(items@[j].tree() == TomlTree::Str(texts@[j]@));
                    }
                    assert(tree_strings(self@)->Some_0 =~= text_views(texts@));
                }
                Some(texts)
            },
            _ => None,
        }
    }

    /// Whether this value nests no deeper than `depth`.
    pub fn fits(&self, depth: usize) -> (b: bool)
        ensures
            b == value_fits(*self, depth as nat),
        decreases depth,
    {
        match self {
            TomlValue::Array(a) => {
                if depth == 0 {
                    return false;
                }
                let mut i: usize = 0;
                while i < a.len()
                    invariant
                        0 <= i <= a.len(),
                        depth > 0,
                        *self == TomlValue::Array(*a),
                        forall|j: int| 0 <= j < i ==> value_fits(#[trigger] a@[j], (depth - 1) as nat),
                    decreases a.len() - i,
                {
                    if !a[i].fits(depth - 1) {
                        proof {
                            let less = (depth as nat - 1) as nat;
                            assert(!value_fits(a@[i as int], less));
                            if value_fits(*self, depth as nat) {
                                lemma_item_fits(*self, depth as nat, i as int);
                            }
                        }
                        return false;
                    }
                    i += 1;
                }
                true
            },
            TomlValue::Table(t) => {
                if depth == 0 {
                    return false;
                }
                let mut i: usize = 0;
                while i < t.len()
                    invariant
                        0 <= i <= t.len(),
                        depth > 0,
                        *self == TomlValue::Table(*t),
                        forall|j: int| 0 <= j < i ==> value_fits((#[trigger] t@[j]).1, (depth - 1) as nat),
                    decreases t.len() - i,
                {
                    if !t[i].1.fits(depth - 1) {
                        proof {
                            let less = (depth as nat - 1) as nat;
                            assert(!value_fits(t@[i as int].1, less));
                            if value_fits(*self, depth as nat) {
                                lemma_field_fits(*self, depth as nat, i as int);
                            }
                        }
                        return false;
                    }
                    i += 1;
                }
                true
            },
            _ => true,
        }
    }

    /// The text of this document. Fails with `Malformed` exactly where the
    /// value nests deeper than is read or the tree has no text that is read
    /// again. The text of a plain document reads back as the same document.
    pub fn to_bytes(&self) -> (r: Result<Vec<u8>, Error>)
        ensures
            !value_fits(*self, MAX_NESTING as nat) ==> r == Err::<Vec<u8>, Error>(Error::Malformed),
            value_fits(*self, MAX_NESTING as nat) ==> match document_text(self@) {
                Some(bytes) => r matches Ok(v) && v@ == bytes,
                None => r == Err::<Vec<u8>, Error>(Error::Malformed),
            },
            r matches Ok(v) ==> (is_plain_document(self@) ==> document_of(v@) == Some(self@)),
    {
        if !self.fits(MAX_NESTING) {
            return Err(Error::Malformed);
        }
        let outside = toml_lower(self);
        match toml_write(&outside) {
            Some(bytes) => if is_shallow_text(bytes.as_slice()) {
                Ok(bytes)
            } else {
                Err(Error::Malformed)
            },
            None => Err(Error::Malformed),
        }
    }

    /// The document that the bytes hold. Fails with `Malformed` exactly where
    /// they hold none, or nest deeper than is read.
    pub fn from_bytes(bytes: &[u8]) -> (r: Result<TomlValue, Error>)
        ensures
            match document_of(bytes@) {
                Some(tree) => r matches Ok(v) && v@ == tree,
                None => r == Err::<TomlValue, Error>(Error::Malformed),
            },
    {
        if !is_shallow_text(bytes) {
            return Err(Error::Malformed);
        }
        match toml_parse(bytes) {
            Some(outside) => match toml_lift(&outside) {
                Some(v) => Ok(v),
                None => Err(Error::Malformed),
            },
            None => Err(Error::Malformed),
        }
    }
}

} // verus!
