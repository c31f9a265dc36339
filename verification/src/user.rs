use vstd::prelude::*;
use vstd::string::StrSliceExecFns;
use vstd::string::StringExecFns;
use vstd::utf8::encode_utf8;
use vstd::utf8::is_ascii_chars;
use vstd::utf8::is_ascii_chars_encode_utf8;

use crate::packet::SMDpacket;
use crate::paths::is_absolute;
use crate::session::is_ascii_bytes;
use crate::session::valid_username_bytes;

verus! {

/// A username fit to be one directory component: non-empty, printable
/// ASCII, no path separator, and neither `.` nor `..`.
pub open spec fn valid_username(s: Seq<char>) -> bool {
    &&& s.len() > 0
    &&& (forall|k: int| 0 <= k < s.len() ==> ' ' <= #[trigger] s[k] && s[k] <= '~' && s[k] != '/')
    &&& s != seq!['.']
    &&& s != seq!['.', '.']
}

/// The separator and state-file name appended under a user's directory.
pub open spec fn sep_chars() -> Seq<char> {
    seq!['/']
}

pub open spec fn state_file_chars() -> Seq<char> {
    seq!['/', 's', 'm', 'd', '_', 's', 't', 'a', 't', 'e', '.', 'j', 's', 'o', 'n']
}

pub open spec fn storage_chars() -> Seq<char> {
    seq!['/', 's', 't', 'o', 'r', 'a', 'g', 'e']
}

#[derive(Debug, Clone, Copy, PartialEq, Eq, Structural)]
pub enum UserError {
    /// The advertised name cannot serve as a directory component.
    InvalidUsername,
}

/// One connection's identity on the server and the directories derived
/// from it.
#[derive(Debug, Clone, PartialEq)]
pub struct User {
    pub username: String,
    pub sync_directory: String,
}

impl User {
    /// Whether the name can serve as a single directory component.
    pub fn check_username(username: &String) -> (r: bool)
        ensures
            r == valid_username(username@),
    {
        let s = username.as_str();
        let n = s.unicode_len();
        if n == 0 {
            return false;
        }
        let mut k: usize = 0;
        while k < n
            invariant
                k <= n,
                n == username@.len(),
                s@ == username@,
                forall|j: int|
                    0 <= j < k ==> ' ' <= #[trigger] s@[j] && s@[j] <= '~' && s@[j] != '/',
            decreases n - k,
        {
            let c = s.get_char(k);
            if !(' ' <= c && c <= '~' && c != '/') {
                return false;
            }
            k += 1;
        }
        let dot = n == 1 && s.get_char(0) == '.';
        let dotdot = n == 2 && s.get_char(0) == '.' && s.get_char(1) == '.';
        proof {
            if dot {
                assert(username@ =~= seq!['.']);
            }
            if dotdot {
                assert(username@ =~= seq!['.', '.']);
            }
            if !dot {
                assert(username@ != seq!['.']) by {
                    if username@ == seq!['.'] {
                        assert(username@.len() == 1 && username@[0] == '.');
                    }
                }
            }
            if !dotdot {
                assert(username@ != seq!['.', '.']) by {
                    if username@ == seq!['.', '.'] {
                        assert(username@.len() == 2 && username@[0] == '.' && username@[1] == '.');
                    }
                }
            }
        }
        !(dot || dotdot)
    }

    /// Derive the user's directory under the server root, refusing a name
    /// that cannot be a directory component.
    pub fn new(username: String, root_directory: &String) -> (r: Result<Self, UserError>)
        requires
            is_absolute(root_directory@),
        ensures
            match r {
                Ok(u) => {
                    &&& valid_username(username@)
                    &&& u.username@ == username@
                    &&& u.sync_directory@ == root_directory@ + sep_chars() + username@
                },
                Err(e) => e == UserError::InvalidUsername && !valid_username(username@),
            },
    {
        if !Self::check_username(&username) {
            return Err(UserError::InvalidUsername);
        }
        let mut sync_directory = root_directory.clone();
        sync_directory.append("/");
        sync_directory.append(username.as_str());
        proof {
            reveal_strlit("/");
            assert(("/")@ =~= sep_chars());
        }
        Ok(User { username, sync_directory })
    }

    /// Take the identity a `Connect` payload advertises: the bytes must
    /// decode to a name fit for a directory component.
    pub fn from_smd_packet(packet: &SMDpacket, root_directory: &String) -> (r: Result<
        Self,
        UserError,
    >)
        requires
            is_absolute(root_directory@),
        ensures
            match r {
                Ok(u) => {
                    &&& valid_username_bytes(packet@.data)
                    &&& valid_username(u.username@)
                    &&& u.username@.len() == packet@.data.len()
                    &&& (forall|k: int|
                        0 <= k < packet@.data.len() ==> #[trigger] u.username@[k] as u8
                            == packet@.data[k])
                    &&& u.sync_directory@ == root_directory@ + sep_chars() + u.username@
                },
                Err(e) => e == UserError::InvalidUsername && !valid_username_bytes(packet@.data),
            },
    {
        let data = packet.get_data();
        let name = match ascii_to_string(data) {
            Some(name) => name,
            None => {
                proof {
                    assert(!is_ascii_bytes(data@));
                    let k = choose|k: int| 0 <= k < data@.len() && !(data@[k] < 128);
                    assert(!(0x20 <= data@[k] && data@[k] <= 0x7E));
                }
                return Err(UserError::InvalidUsername);
            },
        };
        if !Self::check_username(&name) {
            proof {
                if valid_username_bytes(data@) {
                    assert(is_ascii_bytes(data@));
                    assert(valid_username(name@)) by {
                        lemma_username_transfers(name@, data@);
                    }
                }
            }
            return Err(UserError::InvalidUsername);
        }
        proof {
            lemma_username_transfers_back(name@, data@);
            assert(is_ascii_chars(name@));
            lemma_name_bytes(name@, data@);
        }
        Self::new(name, root_directory)
    }

    pub fn username(&self) -> (r: &String)
        ensures
            r@ == self.username@,
    {
        &self.username
    }

    pub fn sync_directory(&self) -> (r: &String)
        ensures
            r@ == self.sync_directory@,
    {
        &self.sync_directory
    }

    /// Where this user's snapshot is persisted.
    pub fn state_path(&self) -> (r: String)
        ensures
            r@ == self.sync_directory@ + state_file_chars(),
    {
        let mut p = self.sync_directory.clone();
        p.append("/smd_state.json");
        proof {
            reveal_strlit("/smd_state.json");
            assert(("/smd_state.json")@ =~= state_file_chars());
        }
        p
    }

    /// The subtree whose contents are synchronized.
    pub fn storage_directory(&self) -> (r: String)
        ensures
            r@ == self.sync_directory@ + storage_chars(),
    {
        let mut p = self.sync_directory.clone();
        p.append("/storage");
        proof {
            reveal_strlit("/storage");
            assert(("/storage")@ =~= storage_chars());
        }
        p
    }
}

/// Relies on String::from_utf8: the string wraps exactly the given bytes,
/// and seven-bit bytes are always valid UTF-8, decoding to one code point
/// per byte.
#[verifier::external_body]
fn ascii_to_string(v: &Vec<u8>) -> (r: Option<String>)
    ensures
        is_ascii_bytes(v@) ==> r is Some && is_ascii_chars(r->0@),
        r matches Some(s) ==> encode_utf8(s@) == v@,
{
    String::from_utf8(v.clone()).ok()
}

/// A string of seven-bit characters and its bytes agree position by
/// position.
proof fn lemma_name_bytes(name: Seq<char>, data: Seq<u8>)
    requires
        encode_utf8(name) == data,
        is_ascii_chars(name),
    ensures
        name.len() == data.len(),
        forall|k: int| 0 <= k < name.len() ==> #[trigger] name[k] as u8 == data[k],
{
    is_ascii_chars_encode_utf8(name);
}

/// A byte-level valid username decodes to a character-level valid one.
proof fn lemma_username_transfers(name: Seq<char>, data: Seq<u8>)
    requires
        encode_utf8(name) == data,
        is_ascii_chars(name),
        valid_username_bytes(data),
    ensures
        valid_username(name),
{
    lemma_name_bytes(name, data);
    assert forall|k: int| 0 <= k < name.len() implies ' ' <= #[trigger] name[k] && name[k] <= '~'
        && name[k] != '/' by {
        assert(name[k] as u8 == data[k]);
        assert(name[k] <= '\u{7f}');
    }
    if name == seq!['.'] {
        assert(name[0] as u8 == data[0]);
        assert(data =~= seq![46u8]);
    }
    if name == seq!['.', '.'] {
        assert(name[0] as u8 == data[0] && name[1] as u8 == data[1]);
        assert(data =~= seq![46u8, 46u8]);
    }
}

/// A character-level valid username encodes to a byte-level valid one.
proof fn lemma_username_transfers_back(name: Seq<char>, data: Seq<u8>)
    requires
        encode_utf8(name) == data,
        valid_username(name),
    ensures
        valid_username_bytes(data),
{
    assert(is_ascii_chars(name));
    lemma_name_bytes(name, data);
    assert forall|k: int| 0 <= k < data.len() implies 0x20 <= #[trigger] data[k] && data[k] <= 0x7E
        && data[k] != 0x2F by {
        assert(name[k] as u8 == data[k]);
        assert(' ' <= name[k] && name[k] <= '~' && name[k] != '/');
    }
    if data == seq![46u8] {
        assert(name.len() == 1);
        assert(name[0] as u8 == 46 && name[0] <= '\u{7f}');
        assert(name[0] == '.');
        assert(name =~= seq!['.']);
    }
    if data == seq![46u8, 46u8] {
        assert(name.len() == 2);
        assert(name[0] as u8 == 46 && name[1] as u8 == 46);
        assert(name[0] == '.' && name[1] == '.');
        assert(name =~= seq!['.', '.']);
    }
}

} // verus!
