use movefile::paths::base_name;
use movefile::paths::join;

fn b(s: &str) -> Vec<u8> {
    s.as_bytes().to_vec()
}

#[test]
fn base_name_of_plain_file() {
    assert_eq!(base_name(&b("/a/b/file.txt")), Some(b("file.txt")));
}

#[test]
fn base_name_without_separator() {
    assert_eq!(base_name(&b("file.txt")), Some(b("file.txt")));
}

#[test]
fn base_name_of_trailing_separator_is_none() {
    assert_eq!(base_name(&b("/a/b/")), None);
}

#[test]
fn base_name_of_root_is_none() {
    assert_eq!(base_name(&b("/")), None);
}

#[test]
fn base_name_of_empty_is_none() {
    assert_eq!(base_name(&b("")), None);
}

#[test]
fn base_name_of_dot_components_is_none() {
    assert_eq!(base_name(&b(".")), None);
    assert_eq!(base_name(&b("..")), None);
    assert_eq!(base_name(&b("/a/..")), None);
}

#[test]
fn join_inserts_separator() {
    assert_eq!(join(&b("/tmp/outdir"), &b("f1")), b("/tmp/outdir/f1"));
}

#[test]
fn join_keeps_existing_separator() {
    assert_eq!(join(&b("/tmp/outdir/"), &b("f1")), b("/tmp/outdir/f1"));
}

#[test]
fn join_onto_empty_directory() {
    assert_eq!(join(&b(""), &b("f1")), b("f1"));
}
