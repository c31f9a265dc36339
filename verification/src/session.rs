use vstd::prelude::*;

use crate::codec::sp_files;
use crate::diff::client_todo_spec;
use crate::diff::diff_defined;
use crate::diff::server_todo_spec;
use crate::file::FileV;
use crate::files::Files;
use crate::files::clone_bytes;
use crate::files::map_of;
use crate::files::unique_keys;
use crate::packet::SMDpacket;
use crate::packet::SMDtype;
use crate::state::State;
use crate::wire::DataTransfer;
use crate::wire::UpdateAnswer;
use crate::wire::sp_answer;
use crate::wire::sp_transfer;

verus! {

/// Every byte is seven-bit.
pub open spec fn is_ascii_bytes(s: Seq<u8>) -> bool {
    forall|k: int| 0 <= k < s.len() ==> s[k] < 128
}

/// A connect payload the server takes: the frame is a `Connect` and its
/// payload is ASCII.
pub fn accept_smd_connect(packet: &SMDpacket) -> (r: bool)
    ensures
        r == (packet@.data_type == SMDtype::Connect && is_ascii_bytes(packet@.data)),
{
    let is_connect = match packet.get_type() {
        SMDtype::Connect => true,
        _ => false,
    };
    if !is_connect {
        return false;
    }
    let data = packet.get_data();
    let mut k: usize = 0;
    while k < data.len()
        invariant
            k <= data@.len(),
            data@ == packet@.data,
            forall|j: int| 0 <= j < k ==> data@[j] < 128,
        decreases data@.len() - k,
    {
        if data[k] >= 128 {
            return false;
        }
        k += 1;
    }
    true
}

/// A username fit to be one directory component, read off the connect
/// payload: non-empty printable ASCII without a separator, and neither
/// `.` nor `..`.
pub open spec fn valid_username_bytes(s: Seq<u8>) -> bool {
    &&& s.len() > 0
    &&& (forall|k: int| 0 <= k < s.len() ==> 0x20 <= #[trigger] s[k] && s[k] <= 0x7E && s[k] != 0x2F)
    &&& s != seq![46u8]
    &&& s != seq![46u8, 46u8]
}

fn check_username_bytes(b: &Vec<u8>) -> (r: bool)
    ensures
        r == valid_username_bytes(b@),
{
    if b.len() == 0 {
        return false;
    }
    let mut k: usize = 0;
    while k < b.len()
        invariant
            k <= b@.len(),
            forall|j: int| 0 <= j < k ==> 0x20 <= #[trigger] b@[j] && b@[j] <= 0x7E && b@[j] != 0x2F,
        decreases b@.len() - k,
    {
        let c = b[k];
        if !(0x20 <= c && c <= 0x7E && c != 0x2F) {
            return false;
        }
        k += 1;
    }
    let dot = b.len() == 1 && b[0] == 46;
    let dotdot = b.len() == 2 && b[0] == 46 && b[1] == 46;
    proof {
        if dot {
            assert(b@ =~= seq![46u8]);
        }
        if dotdot {
            assert(b@ =~= seq![46u8, 46u8]);
        }
        if !dot {
            assert(b@ != seq![46u8]) by {
                if b@ == seq![46u8] {
                    assert(b@.len() == 1 && b@[0] == 46);
                }
            }
        }
        if !dotdot {
            assert(b@ != seq![46u8, 46u8]) by {
                if b@ == seq![46u8, 46u8] {
                    assert(b@.len() == 2 && b@[0] == 46 && b@[1] == 46);
                }
            }
        }
    }
    !(dot || dotdot)
}

// ---------------------------------------------------------------------------
// the delete phase
// ---------------------------------------------------------------------------
/// The paths a work list tags `Deleted`, in entry order.
pub open spec fn deleted_paths(s: Seq<(Seq<u8>, FileV)>) -> Seq<Seq<u8>>
    decreases s.len(),
{
    if s.len() == 0 {
        Seq::empty()
    } else {
        (if s[0].1.state == State::Deleted {
            seq![s[0].0]
        } else {
            Seq::empty()
        }) + deleted_paths(s.skip(1))
    }
}

proof fn lemma_deleted_paths_push(s: Seq<(Seq<u8>, FileV)>, x: (Seq<u8>, FileV))
    ensures
        deleted_paths(s.push(x)) == deleted_paths(s) + (if x.1.state == State::Deleted {
            seq![x.0]
        } else {
            Seq::<Seq<u8>>::empty()
        }),
    decreases s.len(),
{
    let tail = if x.1.state == State::Deleted {
        seq![x.0]
    } else {
        Seq::<Seq<u8>>::empty()
    };
    if s.len() == 0 {
        assert(s.push(x)[0] == x);
        assert(s.push(x).skip(1) =~= Seq::<(Seq<u8>, FileV)>::empty());
        assert(deleted_paths(Seq::<(Seq<u8>, FileV)>::empty()) == Seq::<Seq<u8>>::empty());
        assert(deleted_paths(s.push(x)) =~= deleted_paths(s) + tail);
    } else {
        assert(s.push(x).skip(1) =~= s.skip(1).push(x));
        lemma_deleted_paths_push(s.skip(1), x);
        let head = if s[0].1.state == State::Deleted {
            seq![s[0].0]
        } else {
            Seq::<Seq<u8>>::empty()
        };
        assert(deleted_paths(s.push(x)) == head + (deleted_paths(s.skip(1)) + tail));
        assert(head + (deleted_paths(s.skip(1)) + tail) =~= (head + deleted_paths(s.skip(1)))
            + tail);
    }
}

/// A path is listed for deletion exactly when some entry carries it with
/// the `Deleted` tag.
pub proof fn lemma_deleted_paths_member(s: Seq<(Seq<u8>, FileV)>, p: Seq<u8>)
    ensures
        deleted_paths(s).contains(p) <==> exists|i: int|
            0 <= i < s.len() && s[i].0 == p && s[i].1.state == State::Deleted,
    decreases s.len(),
{
    if s.len() > 0 {
        lemma_deleted_paths_member(s.skip(1), p);
        let head = if s[0].1.state == State::Deleted {
            seq![s[0].0]
        } else {
            Seq::<Seq<u8>>::empty()
        };
        assert(deleted_paths(s) == head + deleted_paths(s.skip(1)));
        if deleted_paths(s).contains(p) {
            let k = choose|k: int| 0 <= k < deleted_paths(s).len() && deleted_paths(s)[k] == p;
            if k < head.len() {
                assert(s[0].0 == p && s[0].1.state == State::Deleted);
            } else {
                assert(deleted_paths(s.skip(1)).contains(p)) by {
                    assert(deleted_paths(s.skip(1))[k - head.len()] == p);
                }
                let i = choose|i: int|
                    0 <= i < s.skip(1).len() && s.skip(1)[i].0 == p && s.skip(1)[i].1.state
                        == State::Deleted;
                assert(s[i + 1].0 == p && s[i + 1].1.state == State::Deleted);
            }
        }
        if exists|i: int| 0 <= i < s.len() && s[i].0 == p && s[i].1.state == State::Deleted {
            let i = choose|i: int|
                0 <= i < s.len() && s[i].0 == p && s[i].1.state == State::Deleted;
            if i == 0 {
                assert(deleted_paths(s)[0] == p);
            } else {
                assert(s.skip(1)[i - 1].0 == p && s.skip(1)[i - 1].1.state == State::Deleted);
                assert(deleted_paths(s.skip(1)).contains(p));
                let k = choose|k: int|
                    0 <= k < deleted_paths(s.skip(1)).len() && deleted_paths(s.skip(1))[k] == p;
                assert(deleted_paths(s)[head.len() + k] == p);
            }
        }
    }
}

/// The local delete phase's decision: exactly the paths the received work
/// list tags `Deleted`, for the caller to remove from its storage tree.
pub fn delete(todo: &Files) -> (r: Vec<Vec<u8>>)
    ensures
        r@.map_values(|p: Vec<u8>| p@) == deleted_paths(todo.kv()),
{
    let mut out: Vec<Vec<u8>> = Vec::new();
    let n = todo.entries.len();
    let mut i: usize = 0;
    while i < n
        invariant
            i <= n,
            n == todo.entries@.len(),
            out@.map_values(|p: Vec<u8>| p@) == deleted_paths(todo.kv().take(i as int)),
        decreases n - i,
    {
        let ghost pre = todo.kv().take(i as int);
        proof {
            lemma_deleted_paths_push(pre, todo.kv()[i as int]);
            assert(todo.kv().take(i + 1) =~= pre.push(todo.kv()[i as int]));
        }
        let deleted = match todo.entries[i].1.state {
            State::Deleted => true,
            _ => false,
        };
        if deleted {
            let ghost preout = out@;
            out.push(clone_bytes(&todo.entries[i].0));
            proof {
                assert(out@.map_values(|p: Vec<u8>| p@) =~= deleted_paths(todo.kv().take(i + 1)));
            }
        } else {
            proof {
                assert(deleted_paths(todo.kv().take(i + 1)) =~= deleted_paths(pre));
            }
        }
        i += 1;
    }
    proof {
        assert(todo.kv().take(n as int) =~= todo.kv());
    }
    out
}

// ---------------------------------------------------------------------------
// the server's session
// ---------------------------------------------------------------------------
#[derive(Debug, Clone, Copy, PartialEq, Eq, Structural)]
pub enum ServerPhase {
    AwaitingConnect,
    AwaitingUpdateRequest,
    ReceivingUploads,
    Closed,
}

/// What the caller must do after the server took one frame.
#[derive(Debug)]
pub enum ServerAction {
    /// Create the user's workspace and reply `Connect` with payload "OK".
    SendConnectOk(Vec<u8>),
    /// Reply `Connect` with payload "KO" and close.
    SendConnectKo,
    /// Reply `Update` carrying this answer.
    SendUpdate(UpdateAnswer),
    /// Write this unit under the storage directory.
    StoreFile(DataTransfer),
    /// Drop a malformed or unknown upload and keep receiving.
    SkipUpload,
    /// Uploads are done: send every `client_todo` file, then `Updated`,
    /// then `Disconnect`, and persist the state.
    BeginDownload,
    /// Protocol error: send `Disconnect` best-effort and close.
    Abort,
}

/// The server half of one session: the fixed phase order and the work
/// lists computed in the update phase.
#[derive(Debug)]
pub struct ServerSession {
    pub phase: ServerPhase,
    pub server_todo: Files,
    pub client_todo: Files,
}

impl ServerSession {
    pub open spec fn wf(&self) -> bool {
        self.server_todo.wf() && self.client_todo.wf()
    }

    pub fn new() -> (r: Self)
        ensures
            r.wf(),
            r.phase == ServerPhase::AwaitingConnect,
            r.server_todo@ == Map::<Seq<u8>, FileV>::empty(),
            r.client_todo@ == Map::<Seq<u8>, FileV>::empty(),
    {
        ServerSession {
            phase: ServerPhase::AwaitingConnect,
            server_todo: Files::empty(),
            client_todo: Files::empty(),
        }
    }

    /// Take one received frame. `local_state` is the server's own
    /// annotated snapshot, consulted in the update phase. A frame of the
    /// wrong version or of the wrong type for the phase is a protocol
    /// error.
    pub fn step(&mut self, packet: &SMDpacket, local_state: &Files) -> (r: ServerAction)
        requires
            old(self).wf(),
            local_state.wf(),
        ensures
            final(self).wf(),
            ({
                let pv = packet@;
                let phase0 = old(self).phase;
                if phase0 == ServerPhase::Closed {
                    (r is Abort) && final(self).phase == ServerPhase::Closed
                } else if pv.version != 1 {
                    (r is Abort) && final(self).phase == ServerPhase::Closed
                } else if phase0 == ServerPhase::AwaitingConnect {
                    if pv.data_type == SMDtype::Connect && valid_username_bytes(pv.data) {
                        &&& r matches ServerAction::SendConnectOk(u) && u@ == pv.data
                        &&& final(self).phase == ServerPhase::AwaitingUpdateRequest
                    } else {
                        (r is SendConnectKo) && final(self).phase == ServerPhase::Closed
                    }
                } else if phase0 == ServerPhase::AwaitingUpdateRequest {
                    if pv.data_type == SMDtype::UpdateRequest {
                        match sp_files(pv.data, 0) {
                            Some(t) => {
                                if t.1 == pv.data.len() && unique_keys(t.0) && diff_defined(
                                    local_state@,
                                    map_of(t.0),
                                ) {
                                    &&& r matches ServerAction::SendUpdate(a) && a.server_todo@
                                        == server_todo_spec(local_state@, map_of(t.0))
                                        && a.client_todo@ == client_todo_spec(
                                        local_state@,
                                        map_of(t.0),
                                    )
                                    &&& final(self).phase == ServerPhase::ReceivingUploads
                                    &&& final(self).server_todo@ == server_todo_spec(
                                        local_state@,
                                        map_of(t.0),
                                    )
                                    &&& final(self).client_todo@ == client_todo_spec(
                                        local_state@,
                                        map_of(t.0),
                                    )
                                } else {
                                    (r is Abort) && final(self).phase == ServerPhase::Closed
                                }
                            },
                            None => (r is Abort) && final(self).phase == ServerPhase::Closed,
                        }
                    } else {
                        (r is Abort) && final(self).phase == ServerPhase::Closed
                    }
                } else {
                    if pv.data_type == SMDtype::Upload {
                        &&& final(self).phase == ServerPhase::ReceivingUploads
                        &&& final(self).server_todo == old(self).server_todo
                        &&& final(self).client_todo == old(self).client_todo
                        &&& (match sp_transfer(pv.data, 0) {
                            Some(t) => {
                                if t.1 == pv.data.len() && old(self).server_todo@.contains_key(
                                    t.0.filename,
                                ) {
                                    r matches ServerAction::StoreFile(d) && d@ == t.0
                                } else {
                                    r is SkipUpload
                                }
                            },
                            None => r is SkipUpload,
                        })
                    } else if pv.data_type == SMDtype::Updated {
                        &&& r is BeginDownload
                        &&& final(self).phase == ServerPhase::Closed
                        &&& final(self).client_todo == old(self).client_todo
                    } else {
                        (r is Abort) && final(self).phase == ServerPhase::Closed
                    }
                }
            }),
    {
        if packet.version != 1 {
            self.phase = ServerPhase::Closed;
            return ServerAction::Abort;
        }
        match self.phase {
            ServerPhase::Closed => ServerAction::Abort,
            ServerPhase::AwaitingConnect => {
                let is_connect = match packet.get_type() {
                    SMDtype::Connect => true,
                    _ => false,
                };
                if is_connect && check_username_bytes(packet.get_data()) {
                    self.phase = ServerPhase::AwaitingUpdateRequest;
                    ServerAction::SendConnectOk(clone_bytes(packet.get_data()))
                } else {
                    self.phase = ServerPhase::Closed;
                    ServerAction::SendConnectKo
                }
            },
            ServerPhase::AwaitingUpdateRequest => {
                let is_update_request = match packet.get_type() {
                    SMDtype::UpdateRequest => true,
                    _ => false,
                };
                if !is_update_request {
                    self.phase = ServerPhase::Closed;
                    return ServerAction::Abort;
                }
                match Files::from_vec(packet.get_data()) {
                    Ok(client_state) => {
                        match Files::diff(local_state.duplicate(), client_state) {
                            Ok(todos) => {
                                let (server_todo, client_todo) = todos;
                                self.server_todo = server_todo.duplicate();
                                self.client_todo = client_todo.duplicate();
                                self.phase = ServerPhase::ReceivingUploads;
                                ServerAction::SendUpdate(
                                    UpdateAnswer::from_json(server_todo, client_todo),
                                )
                            },
                            Err(_) => {
                                self.phase = ServerPhase::Closed;
                                ServerAction::Abort
                            },
                        }
                    },
                    Err(_) => {
                        self.phase = ServerPhase::Closed;
                        ServerAction::Abort
                    },
                }
            },
            ServerPhase::ReceivingUploads => {
                let type_now = *packet.get_type();
                if type_now == SMDtype::Upload {
                    match DataTransfer::from_vec(packet.get_data()) {
                        Ok(unit) => {
                            if self.server_todo.contains_key(unit.filename()) {
                                ServerAction::StoreFile(unit)
                            } else {
                                ServerAction::SkipUpload
                            }
                        },
                        Err(_) => ServerAction::SkipUpload,
                    }
                } else if type_now == SMDtype::Updated {
                    self.phase = ServerPhase::Closed;
                    ServerAction::BeginDownload
                } else {
                    self.phase = ServerPhase::Closed;
                    ServerAction::Abort
                }
            },
        }
    }
}

// ---------------------------------------------------------------------------
// the client's session
// ---------------------------------------------------------------------------
#[derive(Debug, Clone, Copy, PartialEq, Eq, Structural)]
pub enum ClientPhase {
    AwaitingConnectAck,
    AwaitingUpdateAnswer,
    ReceivingDownloads,
    AwaitingDisconnect,
    Closed,
}

/// What the caller must do after the client took one frame.
#[derive(Debug)]
pub enum ClientAction {
    /// Scan the local tree and send `UpdateRequest` with the result.
    BeginUpdate,
    /// Apply the delete phase, upload every `server_todo` file followed by
    /// `Updated`, then receive downloads.
    AcceptAnswer,
    /// Write this unit under the storage directory.
    StoreFile(DataTransfer),
    /// Drop a malformed or unknown download and keep receiving.
    SkipDownload,
    /// Downloads are done: await the server's `Disconnect`.
    DownloadsDone,
    /// The session closed cleanly: half-close the socket and persist the
    /// state.
    SessionDone,
    /// The session failed: close without persisting.
    Fail,
}

/// The client half of one session.
#[derive(Debug)]
pub struct ClientSession {
    pub phase: ClientPhase,
    pub server_todo: Files,
    pub client_todo: Files,
}

impl ClientSession {
    pub open spec fn wf(&self) -> bool {
        self.server_todo.wf() && self.client_todo.wf()
    }

    pub fn new() -> (r: Self)
        ensures
            r.wf(),
            r.phase == ClientPhase::AwaitingConnectAck,
            r.server_todo@ == Map::<Seq<u8>, FileV>::empty(),
            r.client_todo@ == Map::<Seq<u8>, FileV>::empty(),
    {
        ClientSession {
            phase: ClientPhase::AwaitingConnectAck,
            server_todo: Files::empty(),
            client_todo: Files::empty(),
        }
    }

    /// Take one received frame. A frame of the wrong version or of the
    /// wrong type for the phase fails the session.
    pub fn step(&mut self, packet: &SMDpacket) -> (r: ClientAction)
        requires
            old(self).wf(),
        ensures
            final(self).wf(),
            ({
                let pv = packet@;
                let phase0 = old(self).phase;
                if phase0 == ClientPhase::Closed {
                    (r is Fail) && final(self).phase == ClientPhase::Closed
                } else if pv.version != 1 {
                    (r is Fail) && final(self).phase == ClientPhase::Closed
                } else if phase0 == ClientPhase::AwaitingConnectAck {
                    if pv.data_type == SMDtype::Connect && pv.data == seq![79u8, 75u8] {
                        (r is BeginUpdate) && final(self).phase == ClientPhase::AwaitingUpdateAnswer
                    } else {
                        (r is Fail) && final(self).phase == ClientPhase::Closed
                    }
                } else if phase0 == ClientPhase::AwaitingUpdateAnswer {
                    if pv.data_type == SMDtype::Update {
                        match sp_answer(pv.data, 0) {
                            Some(t) => {
                                if t.1 == pv.data.len() && unique_keys(t.0.0) && unique_keys(
                                    t.0.1,
                                ) {
                                    &&& r is AcceptAnswer
                                    &&& final(self).phase == ClientPhase::ReceivingDownloads
                                    &&& final(self).server_todo.kv() == t.0.0
                                    &&& final(self).client_todo.kv() == t.0.1
                                } else {
                                    (r is Fail) && final(self).phase == ClientPhase::Closed
                                }
                            },
                            None => (r is Fail) && final(self).phase == ClientPhase::Closed,
                        }
                    } else {
                        (r is Fail) && final(self).phase == ClientPhase::Closed
                    }
                } else if phase0 == ClientPhase::ReceivingDownloads {
                    if pv.data_type == SMDtype::Download {
                        &&& final(self).phase == ClientPhase::ReceivingDownloads
                        &&& final(self).server_todo == old(self).server_todo
                        &&& final(self).client_todo == old(self).client_todo
                        &&& (match sp_transfer(pv.data, 0) {
                            Some(t) => {
                                if t.1 == pv.data.len() && old(self).client_todo@.contains_key(
                                    t.0.filename,
                                ) {
                                    r matches ClientAction::StoreFile(d) && d@ == t.0
                                } else {
                                    r is SkipDownload
                                }
                            },
                            None => r is SkipDownload,
                        })
                    } else if pv.data_type == SMDtype::Updated {
                        (r is DownloadsDone) && final(self).phase == ClientPhase::AwaitingDisconnect
                    } else {
                        (r is Fail) && final(self).phase == ClientPhase::Closed
                    }
                } else {
                    if pv.data_type == SMDtype::Disconnect {
                        (r is SessionDone) && final(self).phase == ClientPhase::Closed
                    } else {
                        (r is Fail) && final(self).phase == ClientPhase::Closed
                    }
                }
            }),
    {
        if packet.version != 1 {
            self.phase = ClientPhase::Closed;
            return ClientAction::Fail;
        }
        match self.phase {
            ClientPhase::Closed => ClientAction::Fail,
            ClientPhase::AwaitingConnectAck => {
                let is_connect = match packet.get_type() {
                    SMDtype::Connect => true,
                    _ => false,
                };
                let data = packet.get_data();
                if is_connect && data.len() == 2 && data[0] == 79 && data[1] == 75 {
                    proof {
                        assert(data@ =~= seq![79u8, 75u8]);
                    }
                    self.phase = ClientPhase::AwaitingUpdateAnswer;
                    ClientAction::BeginUpdate
                } else {
                    proof {
                        if !(data@.len() == 2 && data@[0] == 79 && data@[1] == 75) {
                            assert(data@ != seq![79u8, 75u8]) by {
                                if data@ == seq![79u8, 75u8] {
                                    assert(data@.len() == 2 && data@[0] == 79 && data@[1] == 75);
                                }
                            }
                        }
                    }
                    self.phase = ClientPhase::Closed;
                    ClientAction::Fail
                }
            },
            ClientPhase::AwaitingUpdateAnswer => {
                let is_update = match packet.get_type() {
                    SMDtype::Update => true,
                    _ => false,
                };
                if !is_update {
                    self.phase = ClientPhase::Closed;
                    return ClientAction::Fail;
                }
                match UpdateAnswer::from_vec(packet.get_data()) {
                    Ok(answer) => {
                        let (server_todo, client_todo) = answer.data();
                        self.server_todo = server_todo;
                        self.client_todo = client_todo;
                        self.phase = ClientPhase::ReceivingDownloads;
                        ClientAction::AcceptAnswer
                    },
                    Err(_) => {
                        self.phase = ClientPhase::Closed;
                        ClientAction::Fail
                    },
                }
            },
            ClientPhase::ReceivingDownloads => {
                let type_now = *packet.get_type();
                if type_now == SMDtype::Download {
                    match DataTransfer::from_vec(packet.get_data()) {
                        Ok(unit) => {
                            if self.client_todo.contains_key(unit.filename()) {
                                ClientAction::StoreFile(unit)
                            } else {
                                ClientAction::SkipDownload
                            }
                        },
                        Err(_) => ClientAction::SkipDownload,
                    }
                } else if type_now == SMDtype::Updated {
                    self.phase = ClientPhase::AwaitingDisconnect;
                    ClientAction::DownloadsDone
                } else {
                    self.phase = ClientPhase::Closed;
                    ClientAction::Fail
                }
            },
            ClientPhase::AwaitingDisconnect => {
                let is_disconnect = match packet.get_type() {
                    SMDtype::Disconnect => true,
                    _ => false,
                };
                if is_disconnect {
                    self.phase = ClientPhase::Closed;
                    ClientAction::SessionDone
                } else {
                    self.phase = ClientPhase::Closed;
                    ClientAction::Fail
                }
            },
        }
    }
}

} // verus!
