use smd::DiffError;
use smd::File;
use smd::Files;
use smd::State;

fn path(s: &str) -> Vec<u8> {
    s.as_bytes().to_vec()
}

#[test]
fn test_state_diff_unchanged_unchanged() {
    let server_input = vec![(path("file"), File::from_data(1, 2, [0; 20], State::Unchanged))];
    let client_input = vec![(path("file"), File::from_data(2, 2, [0; 20], State::Unchanged))];
    let server_output: Vec<(Vec<u8>, File)> = Vec::new();
    let client_output: Vec<(Vec<u8>, File)> = Vec::new();

    let server_data = Files::from_map(server_input);
    let client_data = Files::from_map(client_input);
    let server_todo = Files::from_map(server_output);
    let client_todo = Files::from_map(client_output);
    let result = Files::diff(server_data, client_data).unwrap();

    assert_eq!(result, (server_todo, client_todo));
}

#[test]
fn test_state_diff_unchanged_created() {
    let server_input = vec![(path("file"), File::from_data(1, 2, [0; 20], State::Unchanged))];
    let client_input = vec![(path("file"), File::from_data(2, 3, [1; 20], State::Created))];
    let server_output = vec![(path("file"), File::from_data(2, 3, [1; 20], State::Created))];
    let client_output: Vec<(Vec<u8>, File)> = Vec::new();

    let server_data = Files::from_map(server_input);
    let client_data = Files::from_map(client_input);
    let server_todo = Files::from_map(server_output);
    let client_todo = Files::from_map(client_output);
    let result = Files::diff(server_data, client_data).unwrap();

    assert_eq!(result, (server_todo, client_todo));
}

#[test]
fn test_state_diff_unchanged_edited() {
    let server_input = vec![(path("file"), File::from_data(1, 2, [0; 20], State::Unchanged))];
    let client_input = vec![(path("file"), File::from_data(2, 3, [1; 20], State::Edited))];
    let server_output = vec![(path("file"), File::from_data(2, 3, [1; 20], State::Edited))];
    let client_output: Vec<(Vec<u8>, File)> = Vec::new();

    let server_data = Files::from_map(server_input);
    let client_data = Files::from_map(client_input);
    let server_todo = Files::from_map(server_output);
    let client_todo = Files::from_map(client_output);
    let result = Files::diff(server_data, client_data).unwrap();

    assert_eq!(result, (server_todo, client_todo));
}

#[test]
fn test_state_diff_unchanged_deleted() {
    let server_input = vec![(path("file"), File::from_data(1, 2, [0; 20], State::Unchanged))];
    let client_input = vec![(path("file"), File::from_data(2, 3, [1; 20], State::Deleted))];
    let server_output = vec![(path("file"), File::from_data(2, 3, [1; 20], State::Deleted))];
    let client_output: Vec<(Vec<u8>, File)> = Vec::new();

    let server_data = Files::from_map(server_input);
    let client_data = Files::from_map(client_input);
    let server_todo = Files::from_map(server_output);
    let client_todo = Files::from_map(client_output);
    let result = Files::diff(server_data, client_data).unwrap();

    assert_eq!(result, (server_todo, client_todo));
}

#[test]
fn test_state_diff_created_unchanged() {
    let server_input = vec![(path("file"), File::from_data(1, 2, [1; 20], State::Created))];
    let client_input = vec![(path("file"), File::from_data(2, 3, [0; 20], State::Unchanged))];
    let server_output: Vec<(Vec<u8>, File)> = Vec::new();
    let client_output = vec![(path("file"), File::from_data(1, 2, [1; 20], State::Created))];

    let server_data = Files::from_map(server_input);
    let client_data = Files::from_map(client_input);
    let server_todo = Files::from_map(server_output);
    let client_todo = Files::from_map(client_output);
    let result = Files::diff(server_data, client_data).unwrap();

    assert_eq!(result, (server_todo, client_todo));
}

#[test]
fn test_state_diff_created_created() {
    let server_input = vec![(path("file"), File::from_data(1, 2, [0; 20], State::Created))];
    let client_input = vec![(path("file"), File::from_data(2, 3, [0; 20], State::Created))];
    let server_output: Vec<(Vec<u8>, File)> = Vec::new();
    let client_output: Vec<(Vec<u8>, File)> = Vec::new();

    let server_data = Files::from_map(server_input);
    let client_data = Files::from_map(client_input);
    let server_todo = Files::from_map(server_output);
    let client_todo = Files::from_map(client_output);
    let result = Files::diff(server_data, client_data).unwrap();

    assert_eq!(result, (server_todo, client_todo));
}

#[test]
fn test_state_diff_created_edited() {
    let server_input = vec![(path("file"), File::from_data(2, 3, [0; 20], State::Created))];
    let client_input = vec![(path("file"), File::from_data(1, 2, [1; 20], State::Edited))];
    let server_output: Vec<(Vec<u8>, File)> = Vec::new();
    let client_output = vec![(path("file"), File::from_data(2, 3, [0; 20], State::Created))];

    let server_data = Files::from_map(server_input);
    let client_data = Files::from_map(client_input);
    let server_todo = Files::from_map(server_output);
    let client_todo = Files::from_map(client_output);
    let result = Files::diff(server_data, client_data).unwrap();

    assert_eq!(result, (server_todo, client_todo));
}

#[test]
fn test_state_diff_edited_unchanged() {
    let server_input = vec![(path("file"), File::from_data(1, 2, [1; 20], State::Edited))];
    let client_input = vec![(path("file"), File::from_data(2, 2, [0; 20], State::Unchanged))];
    let server_output: Vec<(Vec<u8>, File)> = Vec::new();
    let client_output = vec![(path("file"), File::from_data(1, 2, [1; 20], State::Edited))];

    let server_data = Files::from_map(server_input);
    let client_data = Files::from_map(client_input);
    let server_todo = Files::from_map(server_output);
    let client_todo = Files::from_map(client_output);
    let result = Files::diff(server_data, client_data).unwrap();

    assert_eq!(result, (server_todo, client_todo));
}

#[test]
fn test_state_diff_edited_created() {
    let server_input = vec![(path("file"), File::from_data(1, 2, [0; 20], State::Edited))];
    let client_input = vec![(path("file"), File::from_data(2, 3, [1; 20], State::Created))];
    let server_output = vec![(path("file"), File::from_data(2, 3, [1; 20], State::Created))];
    let client_output: Vec<(Vec<u8>, File)> = Vec::new();

    let server_data = Files::from_map(server_input);
    let client_data = Files::from_map(client_input);
    let server_todo = Files::from_map(server_output);
    let client_todo = Files::from_map(client_output);
    let result = Files::diff(server_data, client_data).unwrap();

    assert_eq!(result, (server_todo, client_todo));
}

#[test]
fn test_state_diff_edited_edited() {
    let server_input = vec![(path("file"), File::from_data(1, 2, [0; 20], State::Edited))];
    let client_input = vec![(path("file"), File::from_data(2, 3, [1; 20], State::Edited))];
    let server_output = vec![(path("file"), File::from_data(2, 3, [1; 20], State::Edited))];
    let client_output: Vec<(Vec<u8>, File)> = Vec::new();

    let server_data = Files::from_map(server_input);
    let client_data = Files::from_map(client_input);
    let server_todo = Files::from_map(server_output);
    let client_todo = Files::from_map(client_output);
    let result = Files::diff(server_data, client_data).unwrap();

    assert_eq!(result, (server_todo, client_todo));
}

#[test]
fn diff_delete_conflict_is_an_error() {
    let server_input = vec![(path("file"), File::from_data(1, 2, [0; 20], State::Deleted))];
    let client_input = vec![(path("file"), File::from_data(2, 3, [1; 20], State::Edited))];

    let server_data = Files::from_map(server_input);
    let client_data = Files::from_map(client_input);
    let result = Files::diff(server_data, client_data);

    assert_eq!(result, Err(DiffError::DeleteConflict));
}

#[test]
fn diff_tie_break_equal_hashes_no_transfer() {
    // same contents on both sides, equal mtimes: nothing moves
    let server_input = vec![(path("c.txt"), File::from_data(100, 4, [7; 20], State::Edited))];
    let client_input = vec![(path("c.txt"), File::from_data(100, 4, [7; 20], State::Edited))];

    let result = Files::diff(Files::from_map(server_input), Files::from_map(client_input)).unwrap();
    assert_eq!(result.0.len(), 0);
    assert_eq!(result.1.len(), 0);
}

#[test]
fn diff_conflicting_edits_newer_client_wins() {
    let server_input = vec![(path("c.txt"), File::from_data(100, 4, [7; 20], State::Edited))];
    let client_input = vec![(path("c.txt"), File::from_data(200, 4, [8; 20], State::Edited))];

    let (server_todo, client_todo) =
        Files::diff(Files::from_map(server_input), Files::from_map(client_input)).unwrap();
    assert_eq!(
        server_todo,
        Files::from_map(vec![(path("c.txt"), File::from_data(200, 4, [8; 20], State::Edited))])
    );
    assert_eq!(client_todo.len(), 0);
}

#[test]
fn diff_conflicting_edits_newer_server_wins() {
    let server_input = vec![(path("c.txt"), File::from_data(200, 4, [7; 20], State::Edited))];
    let client_input = vec![(path("c.txt"), File::from_data(100, 4, [8; 20], State::Edited))];

    let (server_todo, client_todo) =
        Files::diff(Files::from_map(server_input), Files::from_map(client_input)).unwrap();
    assert_eq!(server_todo.len(), 0);
    assert_eq!(
        client_todo,
        Files::from_map(vec![(path("c.txt"), File::from_data(200, 4, [7; 20], State::Edited))])
    );
}

#[test]
fn diff_equal_mtime_different_hash_server_wins() {
    let server_input = vec![(path("c.txt"), File::from_data(100, 4, [7; 20], State::Edited))];
    let client_input = vec![(path("c.txt"), File::from_data(100, 4, [8; 20], State::Edited))];

    let (server_todo, client_todo) =
        Files::diff(Files::from_map(server_input), Files::from_map(client_input)).unwrap();
    assert_eq!(server_todo.len(), 0);
    assert_eq!(
        client_todo,
        Files::from_map(vec![(path("c.txt"), File::from_data(100, 4, [7; 20], State::Edited))])
    );
}

#[test]
fn diff_one_sided_entries() {
    // a changed entry on one side only lands in the other side's list; an
    // unchanged one-sided entry moves nothing
    let server_input = vec![
        (path("only_server"), File::from_data(5, 1, [1; 20], State::Created)),
        (path("stale_server"), File::from_data(6, 1, [2; 20], State::Unchanged)),
    ];
    let client_input = vec![
        (path("only_client"), File::from_data(7, 1, [3; 20], State::Deleted)),
        (path("stale_client"), File::from_data(8, 1, [4; 20], State::Unchanged)),
    ];

    let (server_todo, client_todo) =
        Files::diff(Files::from_map(server_input), Files::from_map(client_input)).unwrap();
    assert_eq!(
        server_todo,
        Files::from_map(vec![(path("only_client"), File::from_data(7, 1, [3; 20], State::Deleted))])
    );
    assert_eq!(
        client_todo,
        Files::from_map(vec![(path("only_server"), File::from_data(5, 1, [1; 20], State::Created))])
    );
}

#[test]
fn diff_deterministic_across_entry_order() {
    // the same two snapshots, listed in different entry orders, yield the
    // same work lists
    let a1 = vec![
        (path("a"), File::from_data(1, 1, [1; 20], State::Created)),
        (path("b"), File::from_data(2, 1, [2; 20], State::Unchanged)),
    ];
    let a2 = vec![
        (path("b"), File::from_data(2, 1, [2; 20], State::Unchanged)),
        (path("a"), File::from_data(1, 1, [1; 20], State::Created)),
    ];
    let c = vec![(path("b"), File::from_data(3, 1, [3; 20], State::Edited))];

    let (st1, ct1) = Files::diff(Files::from_map(a1), Files::from_map(c.clone())).unwrap();
    let (st2, ct2) = Files::diff(Files::from_map(a2), Files::from_map(c)).unwrap();
    assert_eq!(st1.get(&path("b")), st2.get(&path("b")));
    assert_eq!(st1.len(), st2.len());
    assert_eq!(ct1.get(&path("a")), ct2.get(&path("a")));
    assert_eq!(ct1.len(), ct2.len());
}

#[test]
fn diff_exclusive_work_lists() {
    // no path lands in both lists
    let server_input = vec![
        (path("a"), File::from_data(1, 1, [1; 20], State::Edited)),
        (path("b"), File::from_data(2, 1, [2; 20], State::Unchanged)),
        (path("c"), File::from_data(3, 1, [3; 20], State::Created)),
    ];
    let client_input = vec![
        (path("a"), File::from_data(4, 1, [4; 20], State::Edited)),
        (path("b"), File::from_data(5, 1, [5; 20], State::Edited)),
    ];

    let (server_todo, client_todo) =
        Files::diff(Files::from_map(server_input), Files::from_map(client_input)).unwrap();
    for (p, _) in server_todo.data() {
        assert!(client_todo.get(p).is_none());
    }
    for (p, _) in client_todo.data() {
        assert!(server_todo.get(p).is_none());
    }
}

#[test]
fn diff_converged_snapshots_yield_empty_lists() {
    // after a successful session both sides hold the same all-unchanged
    // snapshot; reconciling moves nothing
    let entries = vec![
        (path("a"), File::from_data(1, 1, [1; 20], State::Unchanged)),
        (path("b"), File::from_data(2, 1, [2; 20], State::Unchanged)),
    ];
    let (server_todo, client_todo) = Files::diff(
        Files::from_map(entries.clone()),
        Files::from_map(entries),
    )
    .unwrap();
    assert_eq!(server_todo.len(), 0);
    assert_eq!(client_todo.len(), 0);
}
