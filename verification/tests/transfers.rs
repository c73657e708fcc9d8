use movefile::engine::NodeKind;
use movefile::memfs::FsNode;
use movefile::memfs::MemFs;
use movefile::request::ErrorKind;
use movefile::request::Mode;
use movefile::request::Operation;
use movefile::request::TargetExistsPolicy;
use movefile::request::TransferOutcome;
use movefile::request::TransferRequest;
use movefile::runner::run;

fn b(s: &str) -> Vec<u8> {
    s.as_bytes().to_vec()
}

fn req(
    paths: Vec<Vec<u8>>,
    mode: Mode,
    operation: Operation,
    policy: TargetExistsPolicy,
) -> TransferRequest {
    TransferRequest { paths, mode, operation, policy }
}

fn expect_success(r: Option<TransferOutcome>) {
    match r {
        Some(TransferOutcome::Success) => (),
        Some(TransferOutcome::Failure(f)) => {
            panic!("expected success, got failure {:?} at {:?}", f.kind, f.path)
        },
        None => panic!("ran out of fuel"),
    }
}

fn expect_failure(r: Option<TransferOutcome>, kind: ErrorKind) -> Vec<u8> {
    match r {
        Some(TransferOutcome::Failure(f)) => {
            assert_eq!(f.kind, kind);
            f.path
        },
        Some(TransferOutcome::Success) => panic!("expected failure, got success"),
        None => panic!("ran out of fuel"),
    }
}

#[test]
fn direct_pair_move_relocates_the_file() {
    let mut fs = MemFs::new();
    fs.set_node(&b("/tmp/a.txt"), FsNode::File(b("hello")));
    let r = req(
        vec![b("/tmp/a.txt"), b("/tmp/b.txt")],
        Mode::DirectPair,
        Operation::Move,
        TargetExistsPolicy::Abort,
    );
    expect_success(run(&mut fs, &r, 100));
    assert_eq!(fs.kind_of(&b("/tmp/a.txt")), NodeKind::Missing);
    assert_eq!(fs.file_content(&b("/tmp/b.txt")), Some(b("hello")));
}

#[test]
fn direct_pair_copy_preserves_the_source() {
    let mut fs = MemFs::new();
    fs.set_node(&b("/tmp/a.txt"), FsNode::File(b("hello")));
    let r = req(
        vec![b("/tmp/a.txt"), b("/tmp/b.txt")],
        Mode::DirectPair,
        Operation::Copy,
        TargetExistsPolicy::Abort,
    );
    expect_success(run(&mut fs, &r, 100));
    assert_eq!(fs.file_content(&b("/tmp/a.txt")), Some(b("hello")));
    assert_eq!(fs.file_content(&b("/tmp/b.txt")), Some(b("hello")));
}

#[test]
fn existing_target_under_abort_fails_and_changes_nothing() {
    let mut fs = MemFs::new();
    fs.set_node(&b("/tmp/a.txt"), FsNode::File(b("hello")));
    fs.set_node(&b("/tmp/b.txt"), FsNode::File(b("old")));
    let r = req(
        vec![b("/tmp/a.txt"), b("/tmp/b.txt")],
        Mode::DirectPair,
        Operation::Move,
        TargetExistsPolicy::Abort,
    );
    let path = expect_failure(run(&mut fs, &r, 100), ErrorKind::TargetExists);
    assert_eq!(path, b("/tmp/b.txt"));
    assert_eq!(fs.file_content(&b("/tmp/a.txt")), Some(b("hello")));
    assert_eq!(fs.file_content(&b("/tmp/b.txt")), Some(b("old")));
}

#[test]
fn existing_target_under_override_is_replaced() {
    let mut fs = MemFs::new();
    fs.set_node(&b("/tmp/a.txt"), FsNode::File(b("hello")));
    fs.set_node(&b("/tmp/b.txt"), FsNode::File(b("old")));
    let r = req(
        vec![b("/tmp/a.txt"), b("/tmp/b.txt")],
        Mode::DirectPair,
        Operation::Move,
        TargetExistsPolicy::Override,
    );
    expect_success(run(&mut fs, &r, 100));
    assert_eq!(fs.kind_of(&b("/tmp/a.txt")), NodeKind::Missing);
    assert_eq!(fs.file_content(&b("/tmp/b.txt")), Some(b("hello")));
}

#[test]
fn merge_policy_is_not_implemented_and_touches_nothing() {
    let mut fs = MemFs::new();
    fs.set_node(&b("/tmp/a.txt"), FsNode::File(b("hello")));
    let r = req(
        vec![b("/tmp/a.txt"), b("/tmp/b.txt")],
        Mode::DirectPair,
        Operation::Move,
        TargetExistsPolicy::Merge,
    );
    expect_failure(run(&mut fs, &r, 100), ErrorKind::NotImplemented);
    assert_eq!(fs.file_content(&b("/tmp/a.txt")), Some(b("hello")));
    assert_eq!(fs.kind_of(&b("/tmp/b.txt")), NodeKind::Missing);
}

#[test]
fn tree_copy_reproduces_structure_and_content() {
    let mut fs = MemFs::new();
    fs.set_node(&b("/tmp/dir"), FsNode::Dir);
    fs.set_node(&b("/tmp/dir/x.txt"), FsNode::File(b("xx")));
    fs.set_node(&b("/tmp/dir/sub"), FsNode::Dir);
    fs.set_node(&b("/tmp/dir/sub/y.txt"), FsNode::File(b("yy")));
    let r = req(
        vec![b("/tmp/dir"), b("/tmp/dir2")],
        Mode::DirectPair,
        Operation::Copy,
        TargetExistsPolicy::Abort,
    );
    expect_success(run(&mut fs, &r, 1000));
    assert_eq!(fs.kind_of(&b("/tmp/dir2")), NodeKind::Dir);
    assert_eq!(fs.file_content(&b("/tmp/dir2/x.txt")), Some(b("xx")));
    assert_eq!(fs.kind_of(&b("/tmp/dir2/sub")), NodeKind::Dir);
    assert_eq!(fs.file_content(&b("/tmp/dir2/sub/y.txt")), Some(b("yy")));
    assert_eq!(fs.file_content(&b("/tmp/dir/x.txt")), Some(b("xx")));
    assert_eq!(fs.file_content(&b("/tmp/dir/sub/y.txt")), Some(b("yy")));
}

#[test]
fn copy_of_an_empty_directory_creates_the_destination() {
    let mut fs = MemFs::new();
    fs.set_node(&b("/tmp/dir"), FsNode::Dir);
    let r = req(
        vec![b("/tmp/dir"), b("/tmp/dir2")],
        Mode::DirectPair,
        Operation::Copy,
        TargetExistsPolicy::Abort,
    );
    expect_success(run(&mut fs, &r, 100));
    assert_eq!(fs.kind_of(&b("/tmp/dir")), NodeKind::Dir);
    assert_eq!(fs.kind_of(&b("/tmp/dir2")), NodeKind::Dir);
}

#[test]
fn directory_copy_onto_existing_destination_fails_even_under_override() {
    let mut fs = MemFs::new();
    fs.set_node(&b("/tmp/dir"), FsNode::Dir);
    fs.set_node(&b("/tmp/dir2"), FsNode::Dir);
    let r = req(
        vec![b("/tmp/dir"), b("/tmp/dir2")],
        Mode::DirectPair,
        Operation::Copy,
        TargetExistsPolicy::Override,
    );
    let path = expect_failure(run(&mut fs, &r, 100), ErrorKind::TargetExists);
    assert_eq!(path, b("/tmp/dir2"));
}

#[test]
fn copy_of_a_missing_source_is_an_internal_error() {
    let mut fs = MemFs::new();
    let r = req(
        vec![b("/tmp/a.txt"), b("/tmp/b.txt")],
        Mode::DirectPair,
        Operation::Copy,
        TargetExistsPolicy::Abort,
    );
    let path = expect_failure(run(&mut fs, &r, 100), ErrorKind::InternalError);
    assert_eq!(path, b("/tmp/a.txt"));
}

#[test]
fn copy_of_a_special_node_is_an_internal_error() {
    let mut fs = MemFs::new();
    fs.set_node(&b("/tmp/sock"), FsNode::Other);
    let r = req(
        vec![b("/tmp/sock"), b("/tmp/b")],
        Mode::DirectPair,
        Operation::Copy,
        TargetExistsPolicy::Abort,
    );
    let path = expect_failure(run(&mut fs, &r, 100), ErrorKind::InternalError);
    assert_eq!(path, b("/tmp/sock"));
}

#[test]
fn move_into_relocates_each_source() {
    let mut fs = MemFs::new();
    fs.set_node(&b("/tmp/f1"), FsNode::File(b("one")));
    fs.set_node(&b("/tmp/f2"), FsNode::File(b("two")));
    fs.set_node(&b("/tmp/outdir"), FsNode::Dir);
    let r = req(
        vec![b("/tmp/f1"), b("/tmp/f2"), b("/tmp/outdir")],
        Mode::MoveInto,
        Operation::Move,
        TargetExistsPolicy::Abort,
    );
    expect_success(run(&mut fs, &r, 100));
    assert_eq!(fs.file_content(&b("/tmp/outdir/f1")), Some(b("one")));
    assert_eq!(fs.file_content(&b("/tmp/outdir/f2")), Some(b("two")));
    assert_eq!(fs.kind_of(&b("/tmp/f1")), NodeKind::Missing);
    assert_eq!(fs.kind_of(&b("/tmp/f2")), NodeKind::Missing);
}

#[test]
fn move_into_stops_at_first_failure_without_rollback() {
    let mut fs = MemFs::new();
    fs.set_node(&b("/tmp/f1"), FsNode::File(b("one")));
    fs.set_node(&b("/tmp/outdir"), FsNode::Dir);
    let r = req(
        vec![b("/tmp/f1"), b("/tmp/f2"), b("/tmp/outdir")],
        Mode::MoveInto,
        Operation::Move,
        TargetExistsPolicy::Abort,
    );
    let path = expect_failure(run(&mut fs, &r, 100), ErrorKind::InternalError);
    assert_eq!(path, b("/tmp/f2"));
    assert_eq!(fs.file_content(&b("/tmp/outdir/f1")), Some(b("one")));
    assert_eq!(fs.kind_of(&b("/tmp/f1")), NodeKind::Missing);
}

#[test]
fn usage_error_for_wrong_direct_pair_count() {
    let mut fs = MemFs::new();
    let r = req(
        vec![b("/tmp/a.txt")],
        Mode::DirectPair,
        Operation::Move,
        TargetExistsPolicy::Abort,
    );
    expect_failure(run(&mut fs, &r, 100), ErrorKind::UsageError);
}
