use mona::account::{Account, Group};
use mona::document::{is_shallow_text, TomlValue};
use mona::error::Error;
use mona::git_creds::{Credentials, Remote, Remotes};
use mona::manifest::{Entry, EntryRequest, Manifest};
use mona::nonce::{append_nonce, parse_ledger, split_lines};
use mona::secret_meta::{AeadAlgorithm, BinaryEncoding, KdfAlgorithm, Meta};

fn sample_meta() -> Meta {
    let mut meta = Meta::default_meta();
    meta.pbkdf2.salt = String::from("c2FsdC1vZi0xMi1i");
    meta.aead.nonce = String::from("bm9uY2Utb2YtMTJi");
    meta
}

#[test]
fn default_meta_has_the_supported_parameters() {
    let meta = Meta::default_meta();
    assert_eq!(meta.version, "0.0.1");
    assert_eq!(meta.binary_encoding, BinaryEncoding::UrlSafeBase64);
    assert_eq!(meta.pbkdf2.algo, KdfAlgorithm::Sha256);
    assert_eq!(meta.pbkdf2.iters, 100_000);
    assert_eq!(meta.aead.algo, AeadAlgorithm::ChaCha20Poly1305);
    assert_eq!(meta.aead.keylen, 256);
    assert_eq!(meta.pbkdf2.algo.name(), "Sha256");
    assert_eq!(meta.aead.algo.name(), "ChaCha20-Poly1305");
    assert_eq!(meta.binary_encoding.name(), "base64url");
}

#[test]
fn meta_text_is_canonical() {
    let text = String::from_utf8(sample_meta().to_toml_bytes().unwrap()).unwrap();
    let expected = "\
binary_encoding = \"base64url\"
version = \"0.0.1\"

[aead]
algo = \"ChaCha20-Poly1305\"
keylen = 256
nonce = \"bm9uY2Utb2YtMTJi\"

[paranoid]
cascading_encryption = \"none\"
simple_multiple_encryption = \"none\"

[pbkdf2]
algo = \"Sha256\"
iters = 100000
salt = \"c2FsdC1vZi0xMi1i\"

[plaintext]
min_bits = 1024
";
    assert_eq!(text, expected);
    assert_eq!(sample_meta().to_toml_bytes().unwrap(), sample_meta().to_toml_bytes().unwrap());
}

#[test]
fn meta_text_reads_back() {
    let meta = sample_meta();
    let read = Meta::from_toml_bytes(&meta.to_toml_bytes().unwrap()).unwrap();
    assert_eq!(read.version, meta.version);
    assert_eq!(read.plaintext.min_bits, 1024);
    assert_eq!(read.pbkdf2.iters, 100_000);
    assert_eq!(read.pbkdf2.salt, meta.pbkdf2.salt);
    assert_eq!(read.aead.nonce, meta.aead.nonce);
    assert_eq!(read.aead.keylen, 256);
    assert_eq!(read.paranoid.simple_multiple_encryption, "none");
    assert_eq!(read.paranoid.cascading_encryption, "none");
}

#[test]
fn meta_text_in_another_order_reads_the_same() {
    let text = b"version = \"0.0.1\"\nbinary_encoding = \"base64url\"\n\
[plaintext]\nmin_bits = 8\n\
[pbkdf2]\nalgo = \"Sha256\"\niters = 20000\nsalt = \"c2FsdA==\"\n\
[aead]\nalgo = \"ChaCha20-Poly1305\"\nnonce = \"bm9uY2U=\"\nkeylen = 256\n\
[paranoid]\nsimple_multiple_encryption = \"a\"\ncascading_encryption = \"b\"\nextra = 1\n";
    let meta = Meta::from_toml_bytes(text).unwrap();
    assert_eq!(meta.plaintext.min_bits, 8);
    assert_eq!(meta.pbkdf2.iters, 20_000);
    assert_eq!(meta.pbkdf2.salt, "c2FsdA==");
    assert_eq!(meta.paranoid.cascading_encryption, "b");
}

fn meta_text_with(replace: &str, by: &str) -> Vec<u8> {
    let text = String::from_utf8(sample_meta().to_toml_bytes().unwrap()).unwrap();
    assert!(text.contains(replace));
    text.replace(replace, by).into_bytes()
}

#[test]
fn unsupported_names_are_refused_when_read() {
    assert!(matches!(
        Meta::from_toml_bytes(&meta_text_with("\"Sha256\"", "\"Sha1\"")),
        Err(Error::UnsupportedKdf)
    ));
    assert!(matches!(
        Meta::from_toml_bytes(&meta_text_with("\"ChaCha20-Poly1305\"", "\"AES-GCM\"")),
        Err(Error::UnsupportedAead)
    ));
    assert!(matches!(
        Meta::from_toml_bytes(&meta_text_with("\"base64url\"", "\"hex\"")),
        Err(Error::UnsupportedEncoding)
    ));
}

#[test]
fn malformed_meta_is_refused() {
    assert!(matches!(Meta::from_toml_bytes(b"version = "), Err(Error::Malformed)));
    assert!(matches!(Meta::from_toml_bytes(b""), Err(Error::Malformed)));
    assert!(matches!(Meta::from_toml_bytes(&[0xff, 0xfe]), Err(Error::Malformed)));
    assert!(matches!(Meta::from_toml_bytes(&meta_text_with("iters = 100000", "iters = -1")), Err(Error::Malformed)));
    assert!(matches!(
        Meta::from_toml_bytes(&meta_text_with("iters = 100000", "iters = 4294967296")),
        Err(Error::Malformed)
    ));
    assert!(matches!(
        Meta::from_toml_bytes(&meta_text_with("iters = 100000", "iters = \"many\"")),
        Err(Error::Malformed)
    ));
    assert!(matches!(
        Meta::from_toml_bytes(&meta_text_with("keylen = 256", "keylen = 2.5")),
        Err(Error::Malformed)
    ));
    assert!(matches!(
        Meta::from_toml_bytes(&meta_text_with("version = \"0.0.1\"\n", "")),
        Err(Error::Malformed)
    ));
    assert!(matches!(
        Meta::from_toml_bytes(&meta_text_with("min_bits = 1024", "min_bits = 2147483648")),
        Err(Error::Malformed)
    ));
}

#[test]
fn later_key_of_a_table_counts() {
    let table = TomlValue::Table(vec![
        (String::from("a"), TomlValue::Int(1)),
        (String::from("b"), TomlValue::Str(String::from("x"))),
        (String::from("a"), TomlValue::Int(2)),
    ]);
    assert_eq!(table.get_int("a"), Some(2));
    assert_eq!(table.get_str("b"), Some(String::from("x")));
    assert_eq!(table.get_int("b"), None);
    assert!(table.get("c").is_none());
    let text = String::from_utf8(table.to_bytes().unwrap()).unwrap();
    assert_eq!(text, "a = 2\nb = \"x\"\n");
    let read = TomlValue::from_bytes(text.as_bytes()).unwrap();
    assert_eq!(read.get_int("a"), Some(2));
}

#[test]
fn texts_with_special_characters_read_back() {
    let odd = "quote \" backslash \\ newline \n tab \t bell \u{7} unicode \u{e9}\u{2603} = [x]";
    let table = TomlValue::Table(vec![(String::from("odd"), TomlValue::Str(String::from(odd)))]);
    let read = TomlValue::from_bytes(&table.to_bytes().unwrap()).unwrap();
    assert_eq!(read.get_str("odd"), Some(String::from(odd)));
}

fn read_back(table: &TomlValue) -> TomlValue {
    TomlValue::from_bytes(&table.to_bytes().unwrap()).unwrap()
}

#[test]
fn numbers_and_truth_values_read_back() {
    let table = TomlValue::Table(vec![
        (String::from("least"), TomlValue::Int(i64::MIN)),
        (String::from("most"), TomlValue::Int(i64::MAX)),
        (String::from("zero"), TomlValue::Int(0)),
        (String::from("yes"), TomlValue::Bool(true)),
        (String::from("no"), TomlValue::Bool(false)),
        (String::from("0-9_A-z"), TomlValue::Int(-1)),
    ]);
    let read = read_back(&table);
    assert_eq!(read.get_int("least"), Some(i64::MIN));
    assert_eq!(read.get_int("most"), Some(i64::MAX));
    assert_eq!(read.get_int("zero"), Some(0));
    assert_eq!(read.get_int("0-9_A-z"), Some(-1));
    assert!(matches!(read.get("yes"), Some(TomlValue::Bool(true))));
    assert!(matches!(read.get("no"), Some(TomlValue::Bool(false))));
}

#[test]
fn every_character_of_a_text_reads_back() {
    let mut all = String::new();
    for code in 0u32..0x300 {
        if let Some(c) = char::from_u32(code) {
            all.push(c);
        }
    }
    all.push('\u{ffff}');
    all.push('\u{10ffff}');
    let table = TomlValue::Table(vec![
        (String::from("all"), TomlValue::Str(all.clone())),
        (String::from("empty"), TomlValue::Str(String::new())),
        (String::from("list"), TomlValue::Array(vec![TomlValue::Str(all.clone()), TomlValue::Str(String::new())])),
        (String::from("none"), TomlValue::Array(vec![])),
    ]);
    let read = read_back(&table);
    assert_eq!(read.get_str("all"), Some(all.clone()));
    assert_eq!(read.get_str("empty"), Some(String::new()));
    assert_eq!(read.get("list").unwrap().as_strings(), Some(vec![all, String::new()]));
    assert_eq!(read.get("none").unwrap().as_strings(), Some(vec![]));
}

#[test]
fn records_and_lists_of_records_read_back() {
    let record = |n: i64| {
        TomlValue::Table(vec![
            (String::from("n"), TomlValue::Int(n)),
            (String::from("s"), TomlValue::Str(format!("[{}]", n))),
            (String::from("l"), TomlValue::Array(vec![TomlValue::Str(String::from("#"))])),
            (String::from("b"), TomlValue::Bool(n > 1)),
        ])
    };
    let table = TomlValue::Table(vec![
        (String::from("z"), TomlValue::Int(7)),
        (String::from("one"), record(1)),
        (String::from("bare"), TomlValue::Table(vec![])),
        (String::from("many"), TomlValue::Array(vec![record(2), TomlValue::Table(vec![]), record(3)])),
        (String::from("a"), TomlValue::Str(String::from("x"))),
    ]);
    let read = read_back(&table);
    assert_eq!(read.get_int("z"), Some(7));
    assert_eq!(read.get_str("a"), Some(String::from("x")));
    assert_eq!(read.get("one").unwrap().get_int("n"), Some(1));
    assert_eq!(read.get("one").unwrap().get_str("s"), Some(String::from("[1]")));
    assert_eq!(read.get("one").unwrap().get("l").unwrap().as_strings(), Some(vec![String::from("#")]));
    assert!(matches!(read.get("bare"), Some(TomlValue::Table(fields)) if fields.is_empty()));
    let many = read.get("many").unwrap().as_array().unwrap();
    assert_eq!(many.len(), 3);
    assert_eq!(many[0].get_int("n"), Some(2));
    assert!(matches!(&many[1], TomlValue::Table(fields) if fields.is_empty()));
    assert_eq!(many[2].get_str("s"), Some(String::from("[3]")));
    assert!(matches!(many[2].get("b"), Some(TomlValue::Bool(true))));
}

#[test]
fn a_document_with_a_float_or_a_date_is_malformed() {
    assert!(matches!(TomlValue::from_bytes(b"a = 1.5\n"), Err(Error::Malformed)));
    assert!(matches!(TomlValue::from_bytes(b"a = 1979-05-27T07:32:00Z\n"), Err(Error::Malformed)));
    assert!(matches!(TomlValue::from_bytes(b"a = [1, 2.5]\n"), Err(Error::Malformed)));
    assert!(TomlValue::from_bytes(b"a = true\n").is_ok());
}

#[test]
fn strings_of_a_list_are_read() {
    let doc = TomlValue::from_bytes(b"tags = [\"a\", \"b\"]\nnums = [1, 2]\n").unwrap();
    assert_eq!(doc.get("tags").unwrap().as_strings(), Some(vec![String::from("a"), String::from("b")]));
    assert_eq!(doc.get("nums").unwrap().as_strings(), None);
    assert_eq!(doc.get("nums").unwrap().as_array().unwrap().len(), 2);
    assert!(doc.as_array().is_none());
}

fn entry(path: &str, tags: &[&str], garbled: &str) -> Entry {
    Entry {
        path: String::from(path),
        tags: tags.iter().map(|t| String::from(*t)).collect(),
        garbled_path: String::from(garbled),
    }
}

#[test]
fn manifest_text_reads_back() {
    let manifest = Manifest {
        entries: vec![
            entry("secret/bank", &["finance", "x y"], "AAAAAAAAAAAAAAAA"),
            entry("b", &[], "BBBBBBBBBBBBBBBB"),
            entry("secret/bank", &["again"], "CCCCCCCCCCCCCCCC"),
        ],
    };
    let bytes = manifest.to_toml_bytes().unwrap();
    let read = Manifest::from_toml_bytes(&bytes).unwrap();
    assert_eq!(read.entries.len(), 3);
    assert_eq!(read.entries[0].path, "secret/bank");
    assert_eq!(read.entries[0].tags, vec![String::from("finance"), String::from("x y")]);
    assert_eq!(read.entries[0].garbled_path, "AAAAAAAAAAAAAAAA");
    assert_eq!(read.entries[1].path, "b");
    assert!(read.entries[1].tags.is_empty());
    assert_eq!(read.entries[2].garbled_path, "CCCCCCCCCCCCCCCC");
}

#[test]
fn empty_manifest_text_reads_back() {
    let bytes = Manifest::empty().to_toml_bytes().unwrap();
    assert_eq!(String::from_utf8(bytes.clone()).unwrap(), "entries = []\n");
    assert!(Manifest::from_toml_bytes(&bytes).unwrap().entries.is_empty());
}

#[test]
fn manifest_text_is_canonical() {
    let manifest = Manifest { entries: vec![entry("secret/bank", &["finance"], "AAAAAAAAAAAAAAAA")] };
    let text = String::from_utf8(manifest.to_toml_bytes().unwrap()).unwrap();
    assert_eq!(
        text,
        "[[entries]]\ngarbled_path = \"AAAAAAAAAAAAAAAA\"\npath = \"secret/bank\"\ntags = [\"finance\"]\n"
    );
}

#[test]
fn malformed_manifest_is_refused() {
    assert!(matches!(Manifest::from_toml_bytes(b""), Err(Error::Malformed)));
    assert!(matches!(Manifest::from_toml_bytes(b"entries = 3\n"), Err(Error::Malformed)));
    assert!(matches!(
        Manifest::from_toml_bytes(b"[[entries]]\npath = \"a\"\ntags = []\n"),
        Err(Error::Malformed)
    ));
    assert!(matches!(
        Manifest::from_toml_bytes(b"[[entries]]\npath = \"a\"\ntags = [1]\ngarbled_path = \"g\"\n"),
        Err(Error::Malformed)
    ));
}

#[test]
fn manifest_is_searched_by_path() {
    let manifest = Manifest {
        entries: vec![entry("a", &[], "1"), entry("b", &[], "2"), entry("a", &[], "3")],
    };
    assert_eq!(manifest.find("a"), Some(0));
    assert_eq!(manifest.find("b"), Some(1));
    assert_eq!(manifest.find("c"), None);
    assert_eq!(manifest.count("a"), 2);
    assert_eq!(manifest.count("b"), 1);
    assert_eq!(manifest.count("c"), 0);
    let rest = manifest.without("a");
    assert_eq!(rest.entries.len(), 1);
    assert_eq!(rest.entries[0].garbled_path, "2");
    let same = manifest.without("c");
    assert_eq!(same.entries.len(), 3);
    assert_eq!(same.entries[2].garbled_path, "3");
}

#[test]
fn logical_paths_are_validated() {
    let ok = EntryRequest { path: String::from("secret/bank"), tags: vec![] };
    assert_eq!(ok.validate(), Ok(()));
    let unicode = EntryRequest { path: String::from("caf\u{e9}/\u{2603}"), tags: vec![] };
    assert_eq!(unicode.validate(), Ok(()));
    let empty = EntryRequest { path: String::new(), tags: vec![] };
    assert_eq!(empty.validate(), Err(Error::InvalidPath));
    for bad in ["a\nb", "a\tb", "\u{0}", "a\u{7f}", "a\rb", "\u{1f}"] {
        let req = EntryRequest { path: String::from(bad), tags: vec![] };
        assert_eq!(req.validate(), Err(Error::InvalidPath));
    }
}

#[test]
fn remotes_text_reads_back() {
    let remotes = Remotes {
        remotes: vec![
            Remote {
                name: String::from("origin"),
                url: String::from("https://example.com/store.git"),
                credentials: Credentials { username: String::from("me"), password: String::from("p\"w") },
            },
            Remote {
                name: String::from("backup"),
                url: String::from("ssh://host/store"),
                credentials: Credentials { username: String::new(), password: String::new() },
            },
        ],
    };
    let read = Remotes::from_toml_bytes(&remotes.to_toml_bytes().unwrap()).unwrap();
    assert_eq!(read.remotes.len(), 2);
    assert_eq!(read.remotes[0].name, "origin");
    assert_eq!(read.remotes[0].url, "https://example.com/store.git");
    assert_eq!(read.remotes[0].credentials.username, "me");
    assert_eq!(read.remotes[0].credentials.password, "p\"w");
    assert_eq!(read.remotes[1].name, "backup");
    let rest = read.without("origin");
    assert_eq!(rest.remotes.len(), 1);
    assert_eq!(rest.remotes[0].name, "backup");
    assert!(Remotes::from_toml_bytes(&Remotes::empty().to_toml_bytes().unwrap()).unwrap().remotes.is_empty());
    assert!(matches!(Remotes::from_toml_bytes(b"remotes = 1"), Err(Error::Malformed)));
}

#[test]
fn empty_group_has_its_version() {
    let group = Group::empty();
    assert_eq!(group.version, "0.0.1");
    assert!(group.accounts.is_empty());
}

#[test]
fn group_text_reads_back() {
    let group = Group {
        version: String::from("0.0.1"),
        accounts: vec![
            Account { username: String::from("alice"), password: String::from("s3cret") },
            Account { username: String::from("bob"), password: String::from("") },
        ],
    };
    let bytes = group.to_toml_bytes().unwrap();
    let read = Group::from_toml_bytes(&bytes).unwrap();
    assert_eq!(read.version, "0.0.1");
    assert_eq!(read.accounts.len(), 2);
    assert_eq!(read.accounts[0].username, "alice");
    assert_eq!(read.accounts[0].password, "s3cret");
    assert_eq!(read.accounts[1].username, "bob");
    let empty = Group::from_toml_bytes(&Group::empty().to_toml_bytes().unwrap()).unwrap();
    assert!(empty.accounts.is_empty());
    assert!(matches!(Group::from_toml_bytes(&b"accounts = []".to_vec()), Err(Error::Malformed)));
}

#[test]
fn ledger_lines_are_split_like_text_lines() {
    assert_eq!(split_lines(b""), Vec::<Vec<u8>>::new());
    assert_eq!(split_lines(b"a\nb\n"), vec![b"a".to_vec(), b"b".to_vec()]);
    assert_eq!(split_lines(b"a\nb"), vec![b"a".to_vec(), b"b".to_vec()]);
    assert_eq!(split_lines(b"a\r\nb\r\n"), vec![b"a".to_vec(), b"b".to_vec()]);
    assert_eq!(split_lines(b"\n\na\n"), vec![b"".to_vec(), b"".to_vec(), b"a".to_vec()]);
    assert_eq!(split_lines(b"a\r"), vec![b"a".to_vec()]);
    for text in ["", "a\nb\n", "a\nb", "a\r\nb\r\n", "\n\na\n", "x", "\n"] {
        let expected: Vec<Vec<u8>> = text.lines().map(|l| l.as_bytes().to_vec()).collect();
        assert_eq!(split_lines(text.as_bytes()), expected);
    }
}

#[test]
fn ledger_holds_the_nonces_in_order() {
    let mut ledger = Vec::new();
    assert_eq!(parse_ledger(&ledger), Ok(vec![]));
    ledger = append_nonce(&ledger, b"nonce-of-12b");
    assert_eq!(ledger, b"bm9uY2Utb2YtMTJi\n".to_vec());
    ledger = append_nonce(&ledger, &[0xfb, 0xff]);
    assert_eq!(ledger, b"bm9uY2Utb2YtMTJi\n-_8=\n".to_vec());
    assert_eq!(parse_ledger(&ledger), Ok(vec![b"nonce-of-12b".to_vec(), vec![0xfb, 0xff]]));
}

#[test]
fn ledger_without_final_line_end_is_completed() {
    let ledger = append_nonce(b"bm9uY2Utb2YtMTJi", &[0xfb, 0xff]);
    assert_eq!(ledger, b"bm9uY2Utb2YtMTJi\n-_8=\n".to_vec());
    assert_eq!(parse_ledger(b"bm9uY2Utb2YtMTJi"), Ok(vec![b"nonce-of-12b".to_vec()]));
}

#[test]
fn ledger_with_a_bad_line_is_refused() {
    assert_eq!(parse_ledger(b"bm9uY2Utb2YtMTJi\n!!!\n"), Err(Error::BadEncoding));
}

fn nested_array(depth: usize) -> Vec<u8> {
    format!("a = {}1{}\n", "[".repeat(depth), "]".repeat(depth)).into_bytes()
}

#[test]
fn nesting_is_read_up_to_a_bound() {
    assert!(is_shallow_text(&nested_array(64)));
    assert!(TomlValue::from_bytes(&nested_array(64)).is_ok());
    assert!(!is_shallow_text(&nested_array(65)));
    assert!(matches!(TomlValue::from_bytes(&nested_array(65)), Err(Error::Malformed)));
}

#[test]
fn very_deep_nesting_is_refused_without_being_read() {
    let brackets = "[".repeat(200_000).into_bytes();
    assert!(matches!(TomlValue::from_bytes(&brackets), Err(Error::Malformed)));
    let mut arrays = b"a = ".to_vec();
    arrays.extend_from_slice(&brackets);
    assert!(matches!(TomlValue::from_bytes(&arrays), Err(Error::Malformed)));
    let braces = format!("a = {}", "{b = ".repeat(100_000)).into_bytes();
    assert!(matches!(TomlValue::from_bytes(&braces), Err(Error::Malformed)));
    let dots = format!("[{}a]\n", "a.".repeat(100_000)).into_bytes();
    assert!(matches!(TomlValue::from_bytes(&dots), Err(Error::Malformed)));
    let keys = format!("{}a = 1\n", "a.".repeat(100_000)).into_bytes();
    assert!(matches!(TomlValue::from_bytes(&keys), Err(Error::Malformed)));
}

#[test]
fn closing_brackets_in_strings_do_not_close() {
    let basic = "[\"]]]]\", ".repeat(70).into_bytes();
    let mut text = b"a = ".to_vec();
    text.extend_from_slice(&basic);
    assert!(!is_shallow_text(&text));
    let literal = "['}]}]', ".repeat(70).into_bytes();
    let mut text = b"a = ".to_vec();
    text.extend_from_slice(&literal);
    assert!(!is_shallow_text(&text));
    let escaped = "[\"\\\"]\", ".repeat(70).into_bytes();
    let mut text = b"a = ".to_vec();
    text.extend_from_slice(&escaped);
    assert!(!is_shallow_text(&text));
    let several = "[\"\"\"\n]\"]\"\"]\n\"\"\", ".repeat(70).into_bytes();
    let mut text = b"a = ".to_vec();
    text.extend_from_slice(&several);
    assert!(!is_shallow_text(&text));
    let comments = "[ # ]]]\n".repeat(70).into_bytes();
    let mut text = b"a = ".to_vec();
    text.extend_from_slice(&comments);
    assert!(!is_shallow_text(&text));
}

#[test]
fn brackets_and_dots_in_strings_do_not_nest() {
    let odd = format!("{}{}{}", "[".repeat(1000), "{".repeat(1000), ".".repeat(1000));
    let table = TomlValue::Table(vec![
        (String::from("odd"), TomlValue::Str(odd.clone())),
        (String::from("list"), TomlValue::Array(vec![TomlValue::Str(odd.clone())])),
    ]);
    let bytes = table.to_bytes().unwrap();
    assert!(is_shallow_text(&bytes));
    let read = TomlValue::from_bytes(&bytes).unwrap();
    assert_eq!(read.get_str("odd"), Some(odd.clone()));
    assert!(is_shallow_text(format!("a = '''{}'''\n", odd).as_bytes()));
    assert!(is_shallow_text(format!("a = \"\"\"{}\"\"\"\n", odd).as_bytes()));
    assert!(is_shallow_text(format!("a = 1 # {}\n", odd).as_bytes()));
    assert!(is_shallow_text(format!("a = '{}'\n", odd).as_bytes()));
}

#[test]
fn many_tables_are_shallow() {
    let text = "[[entries]]\npath = \"a.b.c\"\ntags = [\"x\"]\n".repeat(5000).into_bytes();
    assert!(is_shallow_text(&text));
    let read = TomlValue::from_bytes(&text).unwrap();
    assert_eq!(read.get("entries").unwrap().as_array().unwrap().len(), 5000);
    let floats = "a = [1.5, 2.5, 3.5]\n".as_bytes();
    assert!(is_shallow_text(floats));
}

#[test]
fn a_value_that_nests_deeper_than_is_read_is_not_written() {
    let mut deep = TomlValue::Array(vec![TomlValue::Int(1)]);
    for _ in 0..70 {
        deep = TomlValue::Array(vec![deep]);
    }
    let table = TomlValue::Table(vec![(String::from("a"), deep)]);
    assert_eq!(table.to_bytes(), Err(Error::Malformed));
    let mut fine = TomlValue::Array(vec![TomlValue::Int(1)]);
    for _ in 0..20 {
        fine = TomlValue::Array(vec![fine]);
    }
    let table = TomlValue::Table(vec![(String::from("a"), fine)]);
    assert!(TomlValue::from_bytes(&table.to_bytes().unwrap()).is_ok());
}

#[test]
fn depth_of_a_value_is_measured() {
    assert!(TomlValue::Int(1).fits(0));
    assert!(TomlValue::Str(String::new()).fits(0));
    assert!(!TomlValue::Array(vec![]).fits(0));
    assert!(TomlValue::Array(vec![]).fits(1));
    assert!(!TomlValue::Table(vec![]).fits(0));
    let nested = TomlValue::Table(vec![
        (String::from("a"), TomlValue::Int(1)),
        (String::from("b"), TomlValue::Array(vec![TomlValue::Table(vec![])])),
    ]);
    assert!(!nested.fits(2));
    assert!(nested.fits(3));
    assert!(nested.fits(64));
    let shadowed = TomlValue::Table(vec![
        (String::from("a"), TomlValue::Array(vec![TomlValue::Array(vec![])])),
        (String::from("a"), TomlValue::Int(1)),
    ]);
    assert!(!shadowed.fits(2));
    assert!(shadowed.fits(3));
    let mut deep = TomlValue::Int(1);
    for _ in 0..64 {
        deep = TomlValue::Array(vec![deep]);
    }
    assert!(deep.fits(64));
    assert!(!deep.fits(63));
    let mut deeper = TomlValue::Array(vec![deep]);
    assert!(!deeper.fits(64));
    deeper = TomlValue::Table(vec![(String::from("a"), deeper)]);
    assert_eq!(deeper.to_bytes(), Err(Error::Malformed));
}
