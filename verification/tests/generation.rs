use doko::enumerate::{source_file_names, DirEntry, EntryName};
use doko::error::Error;
use doko::names::is_valid_identifier;
use doko::registry::{dispatch_target, Signature};
use doko::scope::get_enclosing_modules;
use doko::submodule::data_for_submodule;
use doko::{doko, doko_skip_mods};

fn file(name: &str) -> DirEntry {
    DirEntry { is_file: true, name: EntryName::Text(String::from(name)) }
}

fn raw_file(bytes: &[u8]) -> DirEntry {
    DirEntry { is_file: true, name: EntryName::Raw(bytes.to_vec()) }
}

fn directory(name: &str) -> DirEntry {
    DirEntry { is_file: false, name: EntryName::Text(String::from(name)) }
}

fn sig(params: &[&str], ret: Option<&str>) -> Signature {
    Signature {
        params: params.iter().map(|p| String::from(*p)).collect(),
        ret: ret.map(String::from),
    }
}

#[test]
fn only_reserved_or_non_source_is_empty() {
    let entries = vec![
        file("mod.src"),
        file("lib.src"),
        file("main.src"),
        file("notes.txt"),
        directory("real.src"),
    ];
    assert_eq!(source_file_names(&entries), Err(Error::Empty));
}

#[test]
fn empty_directory_is_empty() {
    let entries: Vec<DirEntry> = Vec::new();
    assert_eq!(source_file_names(&entries), Err(Error::Empty));
}

#[test]
fn names_are_sorted_and_distinct() {
    let entries = vec![file("cherry.src"), file("apple.src"), file("banana.src")];
    let names = source_file_names(&entries).unwrap();
    assert_eq!(names, vec!["apple", "banana", "cherry"]);
    for w in names.windows(2) {
        assert!(w[0] < w[1]);
    }
}

#[test]
fn reserved_name_is_skipped() {
    let entries = vec![file("a.src"), file("b.src"), file("mod.src")];
    let names = source_file_names(&entries).unwrap();
    assert_eq!(names, vec!["a", "b"]);
}

#[test]
fn hyphen_normalization() {
    let d = data_for_submodule(String::from("multi-word"));
    assert_eq!(d.name, "multi-word");
    assert_eq!(d.ident, "multi_word");
    assert_eq!(d.inclusion, "mod multi_word from \"multi-word.src\";\n");
}

#[test]
fn plain_stem_keeps_its_name() {
    let d = data_for_submodule(String::from("plain"));
    assert_eq!(d.name, "plain");
    assert_eq!(d.ident, "plain");
    assert_eq!(d.inclusion, "mod plain;\n");
}

#[test]
fn hyphenated_file_dispatches_on_raw_name() {
    let entries = vec![file("multi-word.src")];
    let s = sig(&[], Some("u32"));
    let out = doko("src/utilities", "run", &s, &entries).unwrap();
    assert!(out.contains("mod multi_word from \"multi-word.src\";\n"));
    assert!(out.contains("\"multi-word\" => utilities::multi_word::run,\n"));
    assert!(!out.contains("\"multi_word\""));
}

#[test]
fn two_passes_are_byte_identical() {
    let one = vec![file("b.src"), file("a.src"), file("z-z.src")];
    let other = vec![file("z-z.src"), file("b.src"), file("a.src")];
    let s = sig(&["&str"], Some("u32"));
    let first = doko("src/util", "exec_it", &s, &one).unwrap();
    let second = doko("src/util", "exec_it", &s, &other).unwrap();
    assert_eq!(first, second);
}

#[test]
fn dispatch_known_keys() {
    let entries = vec![file("first.src"), file("multi-word.src")];
    let names = source_file_names(&entries).unwrap();
    let subs: Vec<_> = names.into_iter().map(data_for_submodule).collect();
    let scopes = get_enclosing_modules("src/utilities");
    let target = dispatch_target(&subs, &scopes, "run", "first");
    assert_eq!(target, Some(String::from("utilities::first::run")));
    let target = dispatch_target(&subs, &scopes, "run", "multi-word");
    assert_eq!(target, Some(String::from("utilities::multi_word::run")));
}

#[test]
fn dispatch_unknown_key_has_no_target() {
    let entries = vec![file("first.src")];
    let names = source_file_names(&entries).unwrap();
    let subs: Vec<_> = names.into_iter().map(data_for_submodule).collect();
    let scopes = get_enclosing_modules("src/utilities");
    assert_eq!(dispatch_target(&subs, &scopes, "run", "second"), None);
    assert_eq!(dispatch_target(&subs, &scopes, "run", ""), None);
    assert_eq!(dispatch_target(&subs, &scopes, "run", "first_"), None);
}

#[test]
fn unknown_key_branch_aborts_in_generated_text() {
    let entries = vec![file("first.src")];
    let s = sig(&[], None);
    let out = doko("src/utilities", "run", &s, &entries).unwrap();
    assert!(out.ends_with("unknown => abort(unknown),\n}\n}\n"));
}

#[test]
fn nested_scope_path() {
    let entries = vec![file("c.src")];
    let s = sig(&[], Some("u32"));
    let out = doko("root/a/b", "run", &s, &entries).unwrap();
    let expected = "mod a {\nmod b {\nmod c;\n}\n}\nfn doko_run(module_name) -> fn() -> u32 {\nmatch module_name {\n\"c\" => a::b::c::run,\nunknown => abort(unknown),\n}\n}\n";
    assert_eq!(out, expected);
}

#[test]
fn dispatcher_only_output_has_no_declarations() {
    let entries = vec![file("c.src"), file("d.src")];
    let s = sig(&["u32", "u32"], Some("bool"));
    let full = doko("root/a/b", "cmp", &s, &entries).unwrap();
    let only = doko_skip_mods("root/a/b", "cmp", &s, &entries).unwrap();
    assert!(!only.contains("mod "));
    assert!(only.starts_with("fn doko_cmp(module_name) -> fn(u32, u32) -> bool {\n"));
    assert!(full.ends_with(only.as_str()));
    assert!(full.starts_with("mod a {\n"));
}

#[test]
fn no_return_type_renders_bare_fn() {
    let entries = vec![file("c.src")];
    let s = sig(&["&str"], None);
    let out = doko_skip_mods("src", "go", &s, &entries).unwrap();
    assert!(out.starts_with("fn doko_go(module_name) -> fn(&str) {\n"));
}

#[test]
fn root_directory_has_no_enclosing_scopes() {
    assert_eq!(get_enclosing_modules("src"), Vec::<String>::new());
    assert_eq!(get_enclosing_modules("src/foo/bar"), vec!["foo", "bar"]);
    assert_eq!(get_enclosing_modules("src//foo/"), vec!["foo"]);
}

#[test]
fn non_utf8_name_fails_with_least_raw_name() {
    let later = raw_file(&[0xFF, 0xFE, b'.', b's', b'r', b'c']);
    let least = raw_file(&[0xC3, 0x28, b'.', b's', b'r', b'c']);
    let entries = vec![file("fine.src"), later, least];
    let r = source_file_names(&entries);
    assert_eq!(r, Err(Error::Utf8(vec![0xC3, 0x28, b'.', b's', b'r', b'c'])));
}

#[test]
fn non_utf8_non_source_names_are_ignored() {
    let entries = vec![file("fine.src"), raw_file(&[0xFF, b'.', b't', b'x', b't'])];
    let names = source_file_names(&entries).unwrap();
    assert_eq!(names, vec!["fine"]);
}

#[test]
fn error_messages() {
    assert_eq!(Error::Empty.message(), "no source files found");
    assert_eq!(Error::IO(String::from("read failed")).message(), "read failed");
    let e = Error::Utf8(vec![b'a', 0xFF, b'.', b's', b'r', b'c']);
    assert_eq!(e.message(), "unsupported non-UTF-8 file name: a?.src");
}

#[test]
fn identifier_validity() {
    assert!(is_valid_identifier("multi_word"));
    assert!(is_valid_identifier("_a1"));
    assert!(!is_valid_identifier(""));
    assert!(!is_valid_identifier("1abc"));
    assert!(!is_valid_identifier("multi-word"));
    assert!(!is_valid_identifier("a b"));
}

#[test]
fn generation_fails_on_empty_after_filtering() {
    let entries = vec![file("mod.src"), directory("keep.src")];
    let s = sig(&[], Some("u32"));
    assert_eq!(doko("src/utilities", "run", &s, &entries), Err(Error::Empty));
}

#[test]
fn extension_only_name_is_not_a_source_file() {
    let entries = vec![file(".src"), file("mod.src")];
    assert_eq!(source_file_names(&entries), Err(Error::Empty));
}

#[test]
fn decoding_failure_takes_precedence_over_empty() {
    let entries = vec![raw_file(&[0xFF, b'.', b's', b'r', b'c'])];
    let r = source_file_names(&entries);
    assert_eq!(r, Err(Error::Utf8(vec![0xFF, b'.', b's', b'r', b'c'])));
}

#[test]
fn decoding_failure_report_is_order_independent() {
    let one = vec![
        raw_file(&[0xFF, b'.', b's', b'r', b'c']),
        raw_file(&[0xC0, b'.', b's', b'r', b'c']),
    ];
    let other = vec![
        raw_file(&[0xC0, b'.', b's', b'r', b'c']),
        raw_file(&[0xFF, b'.', b's', b'r', b'c']),
    ];
    assert_eq!(source_file_names(&one), source_file_names(&other));
    assert_eq!(source_file_names(&one), Err(Error::Utf8(vec![0xC0, b'.', b's', b'r', b'c'])));
}

#[test]
fn dispatcher_only_exact_output() {
    let entries = vec![file("c.src")];
    let s = sig(&[], Some("u32"));
    let out = doko_skip_mods("root/a/b", "run", &s, &entries).unwrap();
    let expected = "fn doko_run(module_name) -> fn() -> u32 {\nmatch module_name {\n\"c\" => a::b::c::run,\nunknown => abort(unknown),\n}\n}\n";
    assert_eq!(out, expected);
}
