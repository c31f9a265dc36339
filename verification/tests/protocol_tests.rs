use smd::File;
use smd::Files;
use smd::FrameError;
use smd::SMDpacket;
use smd::SMDtype;
use smd::State;
use smd::UpdateAnswer;
use smd::session::ClientAction;
use smd::session::ClientPhase;
use smd::session::ClientSession;
use smd::session::ServerAction;
use smd::session::ServerPhase;
use smd::session::ServerSession;
use smd::session::accept_smd_connect;
use smd::session::delete;

fn path(s: &str) -> Vec<u8> {
    s.as_bytes().to_vec()
}

#[test]
fn type_values_round_trip() {
    let all = [
        (SMDtype::Connect, 1u8),
        (SMDtype::Disconnect, 2),
        (SMDtype::UpdateRequest, 3),
        (SMDtype::Update, 4),
        (SMDtype::Updated, 5),
        (SMDtype::Upload, 6),
        (SMDtype::Download, 7),
        (SMDtype::Other, 0),
    ];
    for (t, v) in all {
        assert_eq!(t.to_value(), v);
        assert_eq!(SMDtype::from_value(v), t);
    }
    assert_eq!(SMDtype::from_value(42), SMDtype::Other);
}

#[test]
fn frame_round_trip() {
    let packet = SMDpacket::new(1, SMDtype::Upload, vec![1, 2, 3, 255, 0]);
    let bytes = packet.encode();
    assert_eq!(bytes, vec![1, 6, 0, 0, 0, 5, 1, 2, 3, 255, 0]);
    let back = SMDpacket::decode(&bytes).unwrap();
    assert_eq!(back, packet);
}

#[test]
fn frame_round_trip_empty_payload() {
    let packet = SMDpacket::new(7, SMDtype::Other, Vec::new());
    let back = SMDpacket::decode(&packet.encode()).unwrap();
    assert_eq!(back, packet);
}

#[test]
fn frame_decode_errors() {
    assert_eq!(SMDpacket::decode(&vec![1, 2, 3]), Err(FrameError::ShortHeader));
    // length field larger than the bound a receiver accepts
    assert_eq!(
        SMDpacket::decode(&vec![1, 1, 0x80, 0, 0, 0]),
        Err(FrameError::Oversized)
    );
    // length field does not match the bytes present
    assert_eq!(
        SMDpacket::decode(&vec![1, 1, 0, 0, 0, 2, 9]),
        Err(FrameError::LengthMismatch)
    );
    assert_eq!(
        SMDpacket::decode(&vec![1, 1, 0, 0, 0, 0, 9]),
        Err(FrameError::LengthMismatch)
    );
}

#[test]
fn connect_packet_acceptance() {
    let good = SMDpacket::new(1, SMDtype::Connect, path("alice"));
    assert!(accept_smd_connect(&good));
    let wrong_type = SMDpacket::new(1, SMDtype::Upload, path("alice"));
    assert!(!accept_smd_connect(&wrong_type));
    let non_ascii = SMDpacket::new(1, SMDtype::Connect, vec![0xC3, 0xA9]);
    assert!(!accept_smd_connect(&non_ascii));
}

#[test]
fn delete_lists_only_deleted_entries() {
    let todo = Files::from_map(vec![
        (path("keep"), File::from_data(1, 2, [0; 20], State::Created)),
        (path("gone"), File::from_data(3, 4, [1; 20], State::Deleted)),
        (path("also_gone"), File::from_data(5, 6, [2; 20], State::Deleted)),
    ]);
    let doomed = delete(&todo);
    assert_eq!(doomed, vec![path("gone"), path("also_gone")]);
}

#[test]
fn server_session_happy_path() {
    let mut session = ServerSession::new();
    let local = Files::from_map(vec![(
        path("b.txt"),
        File::from_data(1, 1, [1; 20], State::Unchanged),
    )]);

    // connect
    let connect = SMDpacket::new(1, SMDtype::Connect, path("alice"));
    let action = session.step(&connect, &local);
    assert!(matches!(action, ServerAction::SendConnectOk(u) if u == path("alice")));
    assert_eq!(session.phase, ServerPhase::AwaitingUpdateRequest);

    // update: client reports a new file
    let client_state = Files::from_map(vec![(
        path("a.txt"),
        File::from_data(9, 5, [2; 20], State::Created),
    )]);
    let request = SMDpacket::new(1, SMDtype::UpdateRequest, client_state.to_vec());
    let action = session.step(&request, &local);
    match action {
        ServerAction::SendUpdate(answer) => {
            let (server_todo, client_todo) = answer.data();
            assert_eq!(server_todo.len(), 1);
            assert!(server_todo.get(&path("a.txt")).is_some());
            assert_eq!(client_todo.len(), 0);
        },
        other => panic!("unexpected action {:?}", other),
    }
    assert_eq!(session.phase, ServerPhase::ReceivingUploads);

    // the client uploads the file, then says it is done
    let unit = smd::DataTransfer::new(
        path("a.txt"),
        File::from_data(9, 5, [2; 20], State::Created),
        path("hello"),
    );
    let upload = SMDpacket::new(1, SMDtype::Upload, unit.to_vec());
    let action = session.step(&upload, &local);
    assert!(matches!(action, ServerAction::StoreFile(d) if d.filename() == &path("a.txt")));

    let updated = SMDpacket::new(1, SMDtype::Updated, Vec::new());
    let action = session.step(&updated, &local);
    assert!(matches!(action, ServerAction::BeginDownload));
    assert_eq!(session.phase, ServerPhase::Closed);
}

#[test]
fn server_session_rejects_misordered_upload() {
    // an Upload before the UpdateRequest aborts the session
    let mut session = ServerSession::new();
    let local = Files::empty();

    let connect = SMDpacket::new(1, SMDtype::Connect, path("alice"));
    session.step(&connect, &local);

    let unit = smd::DataTransfer::new(
        path("a.txt"),
        File::from_data(9, 5, [2; 20], State::Created),
        path("hello"),
    );
    let upload = SMDpacket::new(1, SMDtype::Upload, unit.to_vec());
    let action = session.step(&upload, &local);
    assert!(matches!(action, ServerAction::Abort));
    assert_eq!(session.phase, ServerPhase::Closed);
}

#[test]
fn server_session_skips_unknown_upload() {
    // an Upload for a path outside server_todo is discarded, not fatal
    let mut session = ServerSession::new();
    let local = Files::empty();

    let connect = SMDpacket::new(1, SMDtype::Connect, path("alice"));
    session.step(&connect, &local);

    let client_state = Files::from_map(vec![(
        path("a.txt"),
        File::from_data(9, 5, [2; 20], State::Created),
    )]);
    let request = SMDpacket::new(1, SMDtype::UpdateRequest, client_state.to_vec());
    session.step(&request, &local);

    let unknown = smd::DataTransfer::new(
        path("elsewhere.txt"),
        File::from_data(9, 5, [2; 20], State::Created),
        path("hello"),
    );
    let upload = SMDpacket::new(1, SMDtype::Upload, unknown.to_vec());
    let action = session.step(&upload, &local);
    assert!(matches!(action, ServerAction::SkipUpload));
    assert_eq!(session.phase, ServerPhase::ReceivingUploads);
}

#[test]
fn server_session_refuses_bad_username() {
    let mut session = ServerSession::new();
    let local = Files::empty();
    let connect = SMDpacket::new(1, SMDtype::Connect, path("a/b"));
    let action = session.step(&connect, &local);
    assert!(matches!(action, ServerAction::SendConnectKo));
    assert_eq!(session.phase, ServerPhase::Closed);
}

#[test]
fn server_session_refuses_unknown_version() {
    let mut session = ServerSession::new();
    let local = Files::empty();
    let connect = SMDpacket::new(2, SMDtype::Connect, path("alice"));
    let action = session.step(&connect, &local);
    assert!(matches!(action, ServerAction::Abort));
    assert_eq!(session.phase, ServerPhase::Closed);
}

#[test]
fn client_session_happy_path() {
    let mut session = ClientSession::new();

    let ok = SMDpacket::new(1, SMDtype::Connect, path("OK"));
    assert!(matches!(session.step(&ok), ClientAction::BeginUpdate));
    assert_eq!(session.phase, ClientPhase::AwaitingUpdateAnswer);

    let server_todo =
        Files::from_map(vec![(path("up"), File::from_data(1, 2, [5; 20], State::Created))]);
    let client_todo =
        Files::from_map(vec![(path("down"), File::from_data(3, 4, [6; 20], State::Edited))]);
    let answer = UpdateAnswer::from_json(server_todo, client_todo);
    let update = SMDpacket::new(1, SMDtype::Update, answer.to_vec());
    assert!(matches!(session.step(&update), ClientAction::AcceptAnswer));
    assert_eq!(session.phase, ClientPhase::ReceivingDownloads);
    assert!(session.server_todo.get(&path("up")).is_some());

    let unit = smd::DataTransfer::new(
        path("down"),
        File::from_data(3, 4, [6; 20], State::Edited),
        path("data"),
    );
    let download = SMDpacket::new(1, SMDtype::Download, unit.to_vec());
    let action = session.step(&download);
    assert!(matches!(action, ClientAction::StoreFile(d) if d.filename() == &path("down")));

    let unknown = smd::DataTransfer::new(
        path("nowhere"),
        File::from_data(3, 4, [6; 20], State::Edited),
        path("data"),
    );
    let download2 = SMDpacket::new(1, SMDtype::Download, unknown.to_vec());
    assert!(matches!(session.step(&download2), ClientAction::SkipDownload));

    let updated = SMDpacket::new(1, SMDtype::Updated, Vec::new());
    assert!(matches!(session.step(&updated), ClientAction::DownloadsDone));
    assert_eq!(session.phase, ClientPhase::AwaitingDisconnect);

    let disconnect = SMDpacket::new(1, SMDtype::Disconnect, Vec::new());
    assert!(matches!(session.step(&disconnect), ClientAction::SessionDone));
    assert_eq!(session.phase, ClientPhase::Closed);
}

#[test]
fn client_session_fails_on_refused_connect() {
    let mut session = ClientSession::new();
    let ko = SMDpacket::new(1, SMDtype::Connect, path("KO"));
    assert!(matches!(session.step(&ko), ClientAction::Fail));
    assert_eq!(session.phase, ClientPhase::Closed);
}
