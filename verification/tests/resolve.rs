use movefile::request::ErrorKind;
use movefile::request::Mode;
use movefile::request::Operation;
use movefile::request::TargetExistsPolicy;
use movefile::request::TransferRequest;
use movefile::request::resolve_pairs;

fn b(s: &str) -> Vec<u8> {
    s.as_bytes().to_vec()
}

fn req(paths: Vec<Vec<u8>>, mode: Mode) -> TransferRequest {
    TransferRequest {
        paths,
        mode,
        operation: Operation::Move,
        policy: TargetExistsPolicy::Abort,
    }
}

#[test]
fn direct_pair_resolves_verbatim() {
    let r = req(vec![b("/tmp/a.txt"), b("/tmp/b.txt")], Mode::DirectPair);
    let pairs = resolve_pairs(&r).unwrap();
    assert_eq!(pairs.len(), 1);
    assert_eq!(pairs[0].0, b("/tmp/a.txt"));
    assert_eq!(pairs[0].1, b("/tmp/b.txt"));
}

#[test]
fn move_into_joins_each_base_name() {
    let r = req(vec![b("/a/x"), b("/b/y"), b("/t")], Mode::MoveInto);
    let pairs = resolve_pairs(&r).unwrap();
    assert_eq!(pairs.len(), 2);
    assert_eq!(pairs[0].0, b("/a/x"));
    assert_eq!(pairs[0].1, b("/t/x"));
    assert_eq!(pairs[1].0, b("/b/y"));
    assert_eq!(pairs[1].1, b("/t/y"));
}

#[test]
fn move_into_unrelated_sources_resolve_independently() {
    let r = req(
        vec![b("deep/nested/one.txt"), b("other.txt"), b("/tmp/outdir")],
        Mode::MoveInto,
    );
    let pairs = resolve_pairs(&r).unwrap();
    assert_eq!(pairs[0].1, b("/tmp/outdir/one.txt"));
    assert_eq!(pairs[1].1, b("/tmp/outdir/other.txt"));
}

#[test]
fn direct_pair_wrong_count_is_usage_error() {
    let r = req(vec![b("/tmp/a.txt")], Mode::DirectPair);
    let f = resolve_pairs(&r).unwrap_err();
    assert_eq!(f.kind, ErrorKind::UsageError);

    let r3 = req(vec![b("a"), b("b"), b("c")], Mode::DirectPair);
    assert_eq!(resolve_pairs(&r3).unwrap_err().kind, ErrorKind::UsageError);
}

#[test]
fn move_into_too_few_paths_is_usage_error() {
    let r = req(vec![b("/tmp/outdir")], Mode::MoveInto);
    assert_eq!(resolve_pairs(&r).unwrap_err().kind, ErrorKind::UsageError);
}

#[test]
fn move_into_source_without_base_name_is_reported() {
    let r = req(vec![b("/a/x"), b("/"), b("/t")], Mode::MoveInto);
    let f = resolve_pairs(&r).unwrap_err();
    assert_eq!(f.kind, ErrorKind::UsageError);
    assert_eq!(f.path, b("/"));
}
