use movefile::engine::Action;
use movefile::engine::DirChild;
use movefile::engine::Engine;
use movefile::engine::Event;
use movefile::engine::NodeKind;
use movefile::request::ErrorKind;
use movefile::request::Operation;
use movefile::request::TargetExistsPolicy;
use movefile::request::TransferOutcome;

fn b(s: &str) -> Vec<u8> {
    s.as_bytes().to_vec()
}

#[test]
fn move_under_abort_queries_then_renames() {
    let eng = Engine::new(
        Operation::Move,
        TargetExistsPolicy::Abort,
        &vec![(b("/s"), b("/d"))],
    );
    let (eng, act) = eng.start();
    match &act {
        Action::QueryKind(p) => assert_eq!(p, &b("/d")),
        _ => panic!("expected a kind query for the destination"),
    }
    let (eng, act) = eng.step(Event::KindIs(NodeKind::Missing));
    match &act {
        Action::DoRename(s, d) => {
            assert_eq!(s, &b("/s"));
            assert_eq!(d, &b("/d"));
        },
        _ => panic!("expected a rename"),
    }
    let (_eng, act) = eng.step(Event::OpDone(None));
    assert!(matches!(act, Action::Finish(TransferOutcome::Success)));
}

#[test]
fn move_under_override_renames_without_looking() {
    let eng = Engine::new(
        Operation::Move,
        TargetExistsPolicy::Override,
        &vec![(b("/s"), b("/d"))],
    );
    let (_eng, act) = eng.start();
    assert!(matches!(act, Action::DoRename(_, _)));
}

#[test]
fn merge_fails_before_any_action() {
    let eng = Engine::new(
        Operation::Move,
        TargetExistsPolicy::Merge,
        &vec![(b("/s"), b("/d"))],
    );
    let (_eng, act) = eng.start();
    match act {
        Action::Finish(TransferOutcome::Failure(f)) => {
            assert_eq!(f.kind, ErrorKind::NotImplemented);
        },
        _ => panic!("expected an immediate failure"),
    }
}

#[test]
fn directory_copy_walks_children_in_listing_order() {
    let eng = Engine::new(
        Operation::Copy,
        TargetExistsPolicy::Override,
        &vec![(b("/src"), b("/dst"))],
    );
    let (eng, act) = eng.start();
    assert!(matches!(act, Action::QueryKind(_)));
    let (eng, act) = eng.step(Event::KindIs(NodeKind::Dir));
    match &act {
        Action::QueryKind(p) => assert_eq!(p, &b("/dst")),
        _ => panic!("expected a kind query for the destination"),
    }
    let (eng, act) = eng.step(Event::KindIs(NodeKind::Missing));
    match &act {
        Action::DoCreateDirAll(p) => assert_eq!(p, &b("/dst")),
        _ => panic!("expected the destination directory to be created"),
    }
    let (eng, act) = eng.step(Event::OpDone(None));
    match &act {
        Action::DoReadDir(p) => assert_eq!(p, &b("/src")),
        _ => panic!("expected the source to be listed"),
    }
    let children = vec![
        DirChild { name: b("a"), kind: NodeKind::File },
        DirChild { name: b("sub"), kind: NodeKind::Dir },
    ];
    let (eng, act) = eng.step(Event::Listing(Ok(children)));
    match &act {
        Action::QueryKind(p) => assert_eq!(p, &b("/src/a")),
        _ => panic!("expected the first child to be classified"),
    }
    let (eng, act) = eng.step(Event::KindIs(NodeKind::File));
    match &act {
        Action::DoCopyFile(s, d) => {
            assert_eq!(s, &b("/src/a"));
            assert_eq!(d, &b("/dst/a"));
        },
        _ => panic!("expected the file child to be copied"),
    }
    let (eng, act) = eng.step(Event::OpDone(None));
    match &act {
        Action::DoCreateDirAll(p) => assert_eq!(p, &b("/dst/sub")),
        _ => panic!("expected the directory child to be created"),
    }
    let (eng, act) = eng.step(Event::OpDone(None));
    match &act {
        Action::DoReadDir(p) => assert_eq!(p, &b("/src/sub")),
        _ => panic!("expected the directory child to be listed"),
    }
    let (_eng, act) = eng.step(Event::Listing(Ok(Vec::new())));
    assert!(matches!(act, Action::Finish(TransferOutcome::Success)));
}

#[test]
fn rename_failure_is_reported_with_its_cause() {
    let eng = Engine::new(
        Operation::Move,
        TargetExistsPolicy::Override,
        &vec![(b("/s"), b("/d"))],
    );
    let (eng, act) = eng.start();
    assert!(matches!(act, Action::DoRename(_, _)));
    let (_eng, act) = eng.step(Event::OpDone(Some(String::from("cross-device link"))));
    match act {
        Action::Finish(TransferOutcome::Failure(f)) => {
            assert_eq!(f.kind, ErrorKind::InternalError);
            assert_eq!(f.path, b("/s"));
            assert_eq!(f.cause, "cross-device link");
        },
        _ => panic!("expected an internal error"),
    }
}
