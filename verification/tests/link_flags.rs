use openblas_build::link::{resolve, PathLookup};
use openblas_build::{as_sorted_vec, ReadError, LinkInfo};

fn names(list: &[&str]) -> Vec<String> {
    list.iter().map(|s| s.to_string()).collect()
}

#[test]
fn libs_are_sorted_and_unique() {
    let info = LinkInfo::parse("-lfoo -lbar -lfoo").unwrap();
    assert_eq!(info.libs, names(&["bar", "foo"]));
    assert!(info.search_paths.is_empty());
}

#[test]
fn existing_directory_is_kept_in_canonical_form() {
    let info = LinkInfo::parse("-L/usr/../usr -lfoo -lbar -lfoo").unwrap();
    assert_eq!(info.libs, names(&["bar", "foo"]));
    let canonical = std::path::Path::new("/usr/../usr").canonicalize().unwrap();
    assert_eq!(info.search_paths, vec![canonical.to_str().unwrap().to_string()]);
    assert_ne!(info.search_paths, names(&["/usr/../usr"]));
}

#[test]
fn missing_directory_is_dropped() {
    let info = LinkInfo::parse("-L/path/does/not/exist -lx").unwrap();
    assert!(info.search_paths.is_empty());
    assert_eq!(info.libs, names(&["x"]));
}

#[test]
fn directories_that_resolve_to_the_same_place_are_listed_once() {
    let info = LinkInfo::parse("-L/usr -L/usr/ -L/usr/../usr -L/").unwrap();
    let root = std::path::Path::new("/").canonicalize().unwrap();
    let usr = std::path::Path::new("/usr").canonicalize().unwrap();
    let mut expected =
        vec![root.to_str().unwrap().to_string(), usr.to_str().unwrap().to_string()];
    expected.sort();
    expected.dedup();
    assert_eq!(info.search_paths, expected);
}

#[test]
fn compiler_reported_flags() {
    let info = LinkInfo::parse("-L/usr/lib/gcc/x86_64-pc-linux-gnu/10.2.0 -L/usr/lib/gcc/x86_64-pc-linux-gnu/10.2.0/../../../../lib -L/lib/../lib -L/usr/lib/../lib -L/usr/lib/gcc/x86_64-pc-linux-gnu/10.2.0/../../..  -lc").unwrap();
    assert_eq!(info.libs, names(&["c"]));
}

#[test]
fn order_of_tokens_does_not_matter() {
    let a = LinkInfo::parse("-lm -lgfortran -lquadmath -lm -lc").unwrap();
    let b = LinkInfo::parse("-lc -lquadmath -lm -lgfortran").unwrap();
    assert_eq!(a.libs, b.libs);
    assert_eq!(a.libs, names(&["c", "gfortran", "m", "quadmath"]));
}

#[test]
fn parse_twice_gives_the_same() {
    let line = "-L/usr -L/nowhere/at/all -lb -la";
    let a = LinkInfo::parse(line).unwrap();
    let b = LinkInfo::parse(line).unwrap();
    assert_eq!(a.libs, b.libs);
    assert_eq!(a.search_paths, b.search_paths);
}

#[test]
fn other_tokens_are_ignored() {
    let info = LinkInfo::parse("-O2  -Wall --lfoo x-lbar -lbaz -pthread").unwrap();
    assert_eq!(info.libs, names(&["baz"]));
    assert!(info.search_paths.is_empty());
}

#[test]
fn flag_is_taken_off_once() {
    let info = LinkInfo::parse("-l-lfoo -l").unwrap();
    assert_eq!(info.libs, names(&["", "-lfoo"]));
    assert_eq!(LinkInfo::search_path_candidates("-L-L/x -L -lq"), names(&["-L/x", ""]));
    let more = LinkInfo::parse("-l-L/usr -l-l -lfoo-l").unwrap();
    assert_eq!(more.libs, names(&["-L/usr", "-l", "foo-l"]));
    assert!(more.search_paths.is_empty());
    let looked_up = LinkInfo::from_lookups("-L-L/usr -lz", &vec![PathLookup::Missing]).unwrap();
    assert!(looked_up.search_paths.is_empty());
    assert_eq!(looked_up.libs, names(&["z"]));
}

#[test]
fn empty_line_gives_nothing() {
    let info = LinkInfo::parse("").unwrap();
    assert!(info.libs.is_empty());
    assert!(info.search_paths.is_empty());
    let none = LinkInfo::default();
    assert!(none.libs.is_empty());
    assert!(none.search_paths.is_empty());
}

#[test]
fn candidates_keep_their_order() {
    assert_eq!(
        LinkInfo::search_path_candidates("-L/b -lfoo -L/a -L/b"),
        names(&["/b", "/a", "/b"])
    );
}

#[test]
fn lookups_decide_the_search_paths() {
    let lookups = vec![
        PathLookup::Found("/usr/lib".to_string()),
        PathLookup::Missing,
        PathLookup::Found("/lib".to_string()),
        PathLookup::Found("/usr/lib".to_string()),
    ];
    let info = LinkInfo::from_lookups("-L/usr/lib -L/gone -L/lib -L/usr/lib/. -lz -la", &lookups).unwrap();
    assert_eq!(info.search_paths, names(&["/lib", "/usr/lib"]));
    assert_eq!(info.libs, names(&["a", "z"]));
}

#[test]
fn unresolved_directory_is_an_error() {
    let lookups = vec![PathLookup::Found("/lib".to_string()), PathLookup::Unresolved];
    let r = LinkInfo::from_lookups("-L/lib -L/odd -lz", &lookups);
    assert_eq!(r.err(), Some(ReadError::IOError));
    assert_eq!(resolve(&lookups).err(), Some(ReadError::IOError));
    assert_eq!(resolve(&vec![PathLookup::Missing]).unwrap(), Vec::<String>::new());
}

#[test]
fn directory_above_is_resolved() {
    let info = LinkInfo::parse("-L/usr/..").unwrap();
    let root = std::path::Path::new("/").canonicalize().unwrap();
    assert_eq!(info.search_paths, vec![root.to_str().unwrap().to_string()]);
    let none = LinkInfo::parse("-L").unwrap();
    assert!(none.search_paths.is_empty());
}

#[test]
fn sorted_set_of_names() {
    let a: Vec<char> = "foo".chars().collect();
    let b: Vec<char> = "bar".chars().collect();
    let c: Vec<char> = "Foo".chars().collect();
    let items: Vec<&[char]> = vec![&a, &b, &a, &c, &b];
    assert_eq!(as_sorted_vec(&items), names(&["Foo", "bar", "foo"]));
    assert_eq!(as_sorted_vec(&Vec::new()), Vec::<String>::new());
}

#[test]
fn answers_of_the_file_system() {
    assert!(matches!(PathLookup::from_answers(false, None), PathLookup::Missing));
    assert!(matches!(
        PathLookup::from_answers(false, Some("/usr".to_string())),
        PathLookup::Missing
    ));
    assert!(matches!(PathLookup::from_answers(true, None), PathLookup::Unresolved));
    match PathLookup::from_answers(true, Some("/usr/lib".to_string())) {
        PathLookup::Found(path) => assert_eq!(path, "/usr/lib"),
        _ => panic!("an existing directory with a canonical path was not found"),
    }
}
