use smd::File;
use smd::Files;
use smd::State;
use smd::get_current_state;

fn path(s: &str) -> Vec<u8> {
    s.as_bytes().to_vec()
}

#[test]
fn scan_classifies_all_four_ways() {
    let stored = Files::from_map(vec![
        (path("kept"), File::from_data(100, 1, [1; 20], State::Unchanged)),
        (path("touched"), File::from_data(100, 2, [2; 20], State::Unchanged)),
        (path("removed"), File::from_data(100, 3, [3; 20], State::Unchanged)),
    ]);
    let disk = Files::from_map(vec![
        (path("kept"), File::from_data(100, 1, [1; 20], State::Unchanged)),
        (path("touched"), File::from_data(150, 2, [2; 20], State::Unchanged)),
        (path("fresh"), File::from_data(120, 4, [4; 20], State::Unchanged)),
    ]);

    let current = get_current_state(stored, &disk);
    assert_eq!(current.len(), 4);
    assert_eq!(current.get(&path("kept")).unwrap().state(), &State::Unchanged);
    assert_eq!(current.get(&path("touched")).unwrap().state(), &State::Edited);
    assert_eq!(current.get(&path("removed")).unwrap().state(), &State::Deleted);
    assert_eq!(current.get(&path("fresh")).unwrap().state(), &State::Created);
    // a stored entry keeps its recorded digest and size; a fresh one takes
    // the disk's
    assert_eq!(current.get(&path("touched")).unwrap().hash(), [2; 20]);
    assert_eq!(current.get(&path("touched")).unwrap().mtime(), 100);
    assert_eq!(current.get(&path("fresh")).unwrap().size(), 4);
}

#[test]
fn scan_equal_mtime_is_unchanged() {
    let stored =
        Files::from_map(vec![(path("f"), File::from_data(100, 1, [1; 20], State::Unchanged))]);
    let disk =
        Files::from_map(vec![(path("f"), File::from_data(100, 1, [1; 20], State::Unchanged))]);
    let current = get_current_state(stored, &disk);
    assert_eq!(current.get(&path("f")).unwrap().state(), &State::Unchanged);
}

#[test]
fn scan_of_empty_sides() {
    let current = get_current_state(Files::empty(), &Files::empty());
    assert_eq!(current.len(), 0);

    let stored =
        Files::from_map(vec![(path("f"), File::from_data(1, 1, [1; 20], State::Unchanged))]);
    let current = get_current_state(stored, &Files::empty());
    assert_eq!(current.get(&path("f")).unwrap().state(), &State::Deleted);

    let disk = Files::from_map(vec![(path("g"), File::from_data(2, 2, [2; 20], State::Unchanged))]);
    let current = get_current_state(Files::empty(), &disk);
    assert_eq!(current.get(&path("g")).unwrap().state(), &State::Created);
}

#[test]
fn new_file_on_client_reaches_the_server_list() {
    // stored and on-disk server state empty; the client sees one new file
    let server_scan = get_current_state(Files::empty(), &Files::empty());

    let client_stored = Files::empty();
    let client_disk = Files::from_map(vec![(
        path("a.txt"),
        File::from_data(50, 5, [9; 20], State::Unchanged),
    )]);
    let client_scan = get_current_state(client_stored, &client_disk);
    assert_eq!(client_scan.get(&path("a.txt")).unwrap().state(), &State::Created);

    let (server_todo, client_todo) = Files::diff(server_scan, client_scan).unwrap();
    assert_eq!(server_todo.get(&path("a.txt")).unwrap().state(), &State::Created);
    assert_eq!(server_todo.len(), 1);
    assert_eq!(client_todo.len(), 0);
}

#[test]
fn deletion_on_client_reaches_the_server_list() {
    // both sides held b.txt; the client-side copy is gone from disk
    let held = File::from_data(100, 1, [1; 20], State::Unchanged);
    let server_scan = get_current_state(
        Files::from_map(vec![(path("b.txt"), held.clone())]),
        &Files::from_map(vec![(path("b.txt"), held.clone())]),
    );
    let client_scan =
        get_current_state(Files::from_map(vec![(path("b.txt"), held)]), &Files::empty());

    let (server_todo, client_todo) = Files::diff(server_scan, client_scan).unwrap();
    assert_eq!(server_todo.get(&path("b.txt")).unwrap().state(), &State::Deleted);
    assert_eq!(client_todo.len(), 0);
}

#[test]
fn matching_sides_converge_to_empty_lists() {
    // both sides' snapshots match their disks: a re-scan reports only
    // Unchanged entries and the reconciler moves nothing
    let entry = File::from_data(100, 1, [1; 20], State::Unchanged);
    let stored = Files::from_map(vec![(path("x"), entry.clone())]);
    let disk = Files::from_map(vec![(path("x"), entry)]);
    let server_scan = get_current_state(stored.duplicate(), &disk);
    let client_scan = get_current_state(stored, &disk);

    let (server_todo, client_todo) = Files::diff(server_scan, client_scan).unwrap();
    assert_eq!(server_todo.len(), 0);
    assert_eq!(client_todo.len(), 0);
}
