use smd::DataTransfer;
use smd::File;
use smd::Files;
use smd::JsonError;
use smd::State;
use smd::UpdateAnswer;

fn path(s: &str) -> Vec<u8> {
    s.as_bytes().to_vec()
}

#[test]
fn snapshot_serializes_to_the_documented_object() {
    let files = Files::from_map(vec![(
        path("a.txt"),
        File::from_data(1, 2, [0; 20], State::Unchanged),
    )]);
    let bytes = files.to_vec();
    let expected = "{\"a.txt\":{\"mtime\":1,\"size\":2,\"hash\":[0,0,0,0,0,0,0,0,0,0,0,0,0,0,0,0,0,0,0,0],\"state\":\"Unchanged\"}}";
    assert_eq!(String::from_utf8(bytes).unwrap(), expected);
}

#[test]
fn empty_snapshot_serializes_to_an_empty_object() {
    let files = Files::empty();
    assert_eq!(String::from_utf8(files.to_vec()).unwrap(), "{}");
}

#[test]
fn snapshot_round_trip_forces_unchanged() {
    let mut files = Files::from_map(vec![
        (path("a.txt"), File::from_data(10, 5, [3; 20], State::Created)),
        (path("dir/b.txt"), File::from_data(-7, 0, [0; 20], State::Deleted)),
        (path("c c.txt"), File::from_data(i64::MIN, u64::MAX, [255; 20], State::Edited)),
    ]);
    // store: every state forced to Unchanged before writing
    files.set_all_unchanged();
    let bytes = files.to_vec();
    let loaded = Files::from_vec(&bytes).unwrap();
    assert_eq!(loaded, files);
    assert_eq!(loaded.get(&path("a.txt")).unwrap().state(), &State::Unchanged);
    assert_eq!(loaded.get(&path("dir/b.txt")).unwrap().mtime(), -7);
    assert_eq!(loaded.get(&path("c c.txt")).unwrap().size(), u64::MAX);
}

#[test]
fn snapshot_round_trip_with_escaped_path() {
    let awkward = path("we\"ird\\name");
    let mut files = Files::from_map(vec![(
        awkward.clone(),
        File::from_data(3, 4, [9; 20], State::Edited),
    )]);
    files.set_all_unchanged();
    let bytes = files.to_vec();
    let loaded = Files::from_vec(&bytes).unwrap();
    assert_eq!(loaded.get(&awkward).unwrap().size(), 4);
}

#[test]
fn snapshot_load_rejects_malformed_bytes() {
    assert_eq!(Files::from_vec(&path("")), Err(JsonError::Malformed));
    assert_eq!(Files::from_vec(&path("{")), Err(JsonError::Malformed));
    assert_eq!(Files::from_vec(&path("[]")), Err(JsonError::Malformed));
    assert_eq!(Files::from_vec(&path("{} ")), Err(JsonError::Malformed));
    assert_eq!(
        Files::from_vec(&path("{\"a\":{\"mtime\":1}}")),
        Err(JsonError::Malformed)
    );
}

#[test]
fn snapshot_load_rejects_duplicate_paths() {
    let one = Files::from_map(vec![(path("a"), File::from_data(1, 2, [0; 20], State::Unchanged))]);
    let body = String::from_utf8(one.to_vec()).unwrap();
    let inner = &body[1..body.len() - 1];
    let doubled = format!("{{{},{}}}", inner, inner);
    assert_eq!(
        Files::from_vec(&doubled.into_bytes()),
        Err(JsonError::DuplicateKey)
    );
}

#[test]
fn transfer_unit_round_trip() {
    let unit = DataTransfer::new(
        path("dir/file.bin"),
        File::from_data(42, 3, [1; 20], State::Created),
        vec![104, 105, 33],
    );
    let bytes = unit.to_vec();
    let expected = "{\"filename\":\"dir/file.bin\",\"file\":{\"mtime\":42,\"size\":3,\"hash\":[1,1,1,1,1,1,1,1,1,1,1,1,1,1,1,1,1,1,1,1],\"state\":\"Created\"},\"data\":[104,105,33]}";
    assert_eq!(String::from_utf8(bytes.clone()).unwrap(), expected);
    let back = DataTransfer::from_vec(&bytes).unwrap();
    assert_eq!(back, unit);
}

#[test]
fn transfer_unit_rejects_malformed_bytes() {
    assert!(DataTransfer::from_vec(&path("{}")).is_err());
    assert!(DataTransfer::from_vec(&path("{\"filename\":\"a\"}")).is_err());
}

#[test]
fn update_answer_round_trip() {
    let server_todo =
        Files::from_map(vec![(path("up"), File::from_data(1, 2, [5; 20], State::Created))]);
    let client_todo =
        Files::from_map(vec![(path("down"), File::from_data(3, 4, [6; 20], State::Edited))]);
    let answer = UpdateAnswer::from_json(server_todo.clone(), client_todo.clone());
    let bytes = answer.to_vec();
    let expected = "{\"server_todo\":{\"up\":{\"mtime\":1,\"size\":2,\"hash\":[5,5,5,5,5,5,5,5,5,5,5,5,5,5,5,5,5,5,5,5],\"state\":\"Created\"}},\"client_todo\":{\"down\":{\"mtime\":3,\"size\":4,\"hash\":[6,6,6,6,6,6,6,6,6,6,6,6,6,6,6,6,6,6,6,6],\"state\":\"Edited\"}}}";
    assert_eq!(String::from_utf8(bytes.clone()).unwrap(), expected);
    let back = UpdateAnswer::from_vec(&bytes).unwrap();
    assert_eq!(back.data(), (server_todo, client_todo));
}

#[test]
fn update_answer_rejects_malformed_bytes() {
    assert!(UpdateAnswer::from_vec(&path("{\"server_todo\":{}}")).is_err());
}

#[test]
fn all_four_states_round_trip() {
    for (name, st) in [
        ("u", State::Unchanged),
        ("c", State::Created),
        ("e", State::Edited),
        ("d", State::Deleted),
    ] {
        let unit = DataTransfer::new(path(name), File::from_data(0, 0, [0; 20], st), Vec::new());
        let back = DataTransfer::from_vec(&unit.to_vec()).unwrap();
        assert_eq!(back.file().state(), &st);
    }
}

#[test]
fn negative_and_extreme_numbers_round_trip() {
    let unit = DataTransfer::new(
        path("n"),
        File::from_data(i64::MIN, u64::MAX, [0; 20], State::Unchanged),
        vec![0, 255],
    );
    let back = DataTransfer::from_vec(&unit.to_vec()).unwrap();
    assert_eq!(back.file().mtime(), i64::MIN);
    assert_eq!(back.file().size(), u64::MAX);
    assert_eq!(back.data(), &vec![0u8, 255]);

    let unit2 = DataTransfer::new(
        path("m"),
        File::from_data(i64::MAX, 0, [0; 20], State::Unchanged),
        Vec::new(),
    );
    let back2 = DataTransfer::from_vec(&unit2.to_vec()).unwrap();
    assert_eq!(back2.file().mtime(), i64::MAX);
}

#[test]
fn snapshot_loads_from_text_too() {
    let files = Files::from_map(vec![(path("a"), File::from_data(1, 2, [0; 20], State::Unchanged))]);
    let text = String::from_utf8(files.to_vec()).unwrap();
    let loaded = Files::from_str(&text).unwrap();
    assert_eq!(loaded, files);
}
