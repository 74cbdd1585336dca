use vfs_listing::path::child_path;
use vfs_listing::scan::{list_from_events, Action, Event, ListError, OpenErrorKind, Phase, Scan};

fn bytes(s: &str) -> Vec<u8> {
    s.as_bytes().to_vec()
}

fn entries(names: &[&str]) -> Vec<Event> {
    let mut evs = vec![Event::Opened];
    for n in names {
        evs.push(Event::Entry(bytes(n)));
    }
    evs.push(Event::End);
    evs
}

fn paths(items: &[Result<Vec<u8>, ListError>]) -> Vec<Vec<u8>> {
    items
        .iter()
        .map(|r| match r {
            Ok(p) => p.clone(),
            Err(e) => panic!("unexpected failure {:?}", e),
        })
        .collect()
}

#[test]
fn child_path_adds_separator() {
    assert_eq!(child_path(&bytes("/tmp/d"), &bytes("a.txt")), bytes("/tmp/d/a.txt"));
}

#[test]
fn child_path_keeps_trailing_separator() {
    assert_eq!(child_path(&bytes("/tmp/d/"), &bytes("a.txt")), bytes("/tmp/d/a.txt"));
    assert_eq!(child_path(&bytes("/"), &bytes("etc")), bytes("/etc"));
}

#[test]
fn child_path_of_empty_directory_path_is_the_name() {
    assert_eq!(child_path(&bytes(""), &bytes("a.txt")), bytes("a.txt"));
    assert_eq!(child_path(&bytes("."), &bytes("a.txt")), bytes("./a.txt"));
}

#[test]
fn two_files_are_listed_then_the_listing_ends() {
    let (phase, items) = list_from_events(bytes("/tmp/d"), &entries(&["a.txt", "b.txt"]));
    assert_eq!(phase, Phase::Exhausted);
    let mut got = paths(&items);
    got.sort();
    assert_eq!(got, vec![bytes("/tmp/d/a.txt"), bytes("/tmp/d/b.txt")]);
}

#[test]
fn missing_directory_is_reported_as_not_found() {
    let evs = vec![Event::OpenFailed(OpenErrorKind::NotFound)];
    let (phase, items) = list_from_events(bytes("/tmp/d/missing"), &evs);
    assert_eq!(phase, Phase::Exhausted);
    assert_eq!(items.len(), 1);
    assert!(matches!(items[0], Err(ListError::Open(OpenErrorKind::NotFound))));
}

#[test]
fn open_failure_kinds_are_kept() {
    for kind in [
        OpenErrorKind::NotFound,
        OpenErrorKind::NotADirectory,
        OpenErrorKind::PermissionDenied,
        OpenErrorKind::Other,
    ] {
        let evs = vec![Event::OpenFailed(kind), Event::Entry(bytes("x")), Event::End];
        let (phase, items) = list_from_events(bytes("/srv"), &evs);
        assert_eq!(phase, Phase::Exhausted);
        assert_eq!(items.len(), 1);
        match &items[0] {
            Err(ListError::Open(k)) => assert_eq!(*k, kind),
            other => panic!("unexpected {:?}", other),
        }
    }
}

#[test]
fn empty_directory_yields_nothing() {
    let (phase, items) = list_from_events(bytes("/tmp/empty"), &entries(&[]));
    assert_eq!(phase, Phase::Exhausted);
    assert!(items.is_empty());
}

#[test]
fn stable_directory_yields_each_entry_once() {
    let names = ["one", "two", "three", "four"];
    let (phase, items) = list_from_events(bytes("/data"), &entries(&names));
    assert_eq!(phase, Phase::Exhausted);
    let got = paths(&items);
    assert_eq!(got.len(), names.len());
    for (p, n) in got.iter().zip(names.iter()) {
        assert_eq!(*p, bytes(&format!("/data/{}", n)));
    }
    let mut uniq = got.clone();
    uniq.sort();
    uniq.dedup();
    assert_eq!(uniq.len(), names.len());
}

#[test]
fn unreadable_entry_yields_one_failure_and_listing_goes_on() {
    let evs = vec![
        Event::Opened,
        Event::Entry(bytes("a")),
        Event::EntryFailed(String::from("permission denied")),
        Event::Entry(bytes("c")),
        Event::End,
    ];
    let (phase, items) = list_from_events(bytes("/srv"), &evs);
    assert_eq!(phase, Phase::Exhausted);
    assert_eq!(items.len(), 3);
    assert_eq!(items[0].as_ref().unwrap(), &bytes("/srv/a"));
    match &items[1] {
        Err(ListError::Entry(e)) => {
            assert_eq!(e.dir, bytes("/srv"));
            assert_eq!(e.cause, "permission denied");
        }
        other => panic!("unexpected {:?}", other),
    }
    assert_eq!(items[2].as_ref().unwrap(), &bytes("/srv/c"));
}

#[test]
fn listing_twice_in_another_order_gives_the_same_paths() {
    let (_, first) = list_from_events(bytes("/tmp/d"), &entries(&["a.txt", "b.txt", "c"]));
    let (_, second) = list_from_events(bytes("/tmp/d"), &entries(&["c", "a.txt", "b.txt"]));
    let mut p1 = paths(&first);
    let mut p2 = paths(&second);
    p1.sort();
    p2.sort();
    assert_eq!(p1, p2);
}

#[test]
fn scan_moves_forward_only() {
    let mut scan = Scan::new(bytes("/d"));
    assert_eq!(scan.phase(), Phase::NotStarted);
    assert_eq!(scan.dir(), &bytes("/d"));
    assert!(matches!(scan.step(&Event::Opened), Action::Nothing));
    assert_eq!(scan.phase(), Phase::Producing);
    match scan.step(&Event::Entry(bytes("x"))) {
        Action::Yield(Ok(p)) => assert_eq!(p, bytes("/d/x")),
        other => panic!("unexpected {:?}", other),
    }
    assert!(matches!(scan.step(&Event::End), Action::Finish));
    assert_eq!(scan.phase(), Phase::Exhausted);
    assert!(matches!(scan.step(&Event::Entry(bytes("y"))), Action::Finish));
    assert!(matches!(scan.step(&Event::Opened), Action::Finish));
    assert_eq!(scan.phase(), Phase::Exhausted);
}

#[test]
fn events_out_of_place_change_nothing() {
    let mut scan = Scan::new(bytes("/d"));
    assert!(matches!(scan.step(&Event::Entry(bytes("x"))), Action::Nothing));
    assert!(matches!(scan.step(&Event::End), Action::Nothing));
    assert_eq!(scan.phase(), Phase::NotStarted);
    assert!(matches!(scan.step(&Event::Opened), Action::Nothing));
    assert!(matches!(scan.step(&Event::Opened), Action::Nothing));
    assert!(matches!(
        scan.step(&Event::OpenFailed(OpenErrorKind::Other)),
        Action::Nothing
    ));
    assert_eq!(scan.phase(), Phase::Producing);
}
