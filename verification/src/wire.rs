use vstd::prelude::*;

use crate::codec::JsonError;
use crate::codec::enc_file;
use crate::codec::enc_files;
use crate::codec::files_from_entries;
use crate::codec::lemma_sp_file_of_enc;
use crate::codec::lemma_sp_files_of_enc;
use crate::codec::match_at;
use crate::codec::parse_file;
use crate::codec::parse_files;
use crate::codec::sp_file;
use crate::codec::sp_files;
use crate::codec::valid_entries;
use crate::file::File;
use crate::file::FileV;
use crate::files::Files;
use crate::files::unique_keys;
use crate::json::emit_arr;
use crate::json::emit_str;
use crate::json::enc_arr;
use crate::json::enc_str;
use crate::json::lemma_sp_arr_of_enc;
use crate::json::lemma_sp_str_of_enc;
use crate::json::parse_arr;
use crate::json::parse_str;
use crate::json::sp_arr;
use crate::json::sp_str;
use crate::json::valid_str;

verus! {

// ---------------------------------------------------------------------------
// one transferred file
// ---------------------------------------------------------------------------
/// Mathematical model of a transfer unit.
pub struct TransferV {
    pub filename: Seq<u8>,
    pub file: FileV,
    pub data: Seq<u8>,
}

/// One file crossing the wire: its relative path, its entry, and its
/// bytes.
#[derive(Debug, Clone, PartialEq)]
pub struct DataTransfer {
    pub filename: Vec<u8>,
    pub file: File,
    pub data: Vec<u8>,
}

impl View for DataTransfer {
    type V = TransferV;

    open spec fn view(&self) -> TransferV {
        TransferV { filename: self.filename@, file: self.file@, data: self.data@ }
    }
}

pub open spec fn lit_filename() -> Seq<u8> {
    seq![123u8, 34, 102, 105, 108, 101, 110, 97, 109, 101, 34, 58]
}

pub open spec fn lit_file() -> Seq<u8> {
    seq![44u8, 34, 102, 105, 108, 101, 34, 58]
}

pub open spec fn lit_data() -> Seq<u8> {
    seq![44u8, 34, 100, 97, 116, 97, 34, 58]
}

/// The object a transfer unit is written as.
pub open spec fn enc_transfer(t: TransferV) -> Seq<u8> {
    lit_filename() + enc_str(t.filename) + lit_file() + enc_file(t.file) + lit_data() + enc_arr(
        t.data,
    ) + seq![125u8]
}

/// Read a transfer unit at `i`: the three fields in a fixed order.
pub open spec fn sp_transfer(s: Seq<u8>, i: int) -> Option<(TransferV, int)> {
    if !match_at(s, i, lit_filename()) {
        None
    } else {
        match sp_str(s, i + 12) {
            Some((p, j1)) => if match_at(s, j1, lit_file()) {
                match sp_file(s, j1 + 8) {
                    Some((f, j2)) => if match_at(s, j2, lit_data()) {
                        match sp_arr(s, j2 + 8) {
                            Some((d, j3)) => if 0 <= j3 < s.len() && s[j3] == 125 {
                                Some((TransferV { filename: p, file: f, data: d }, j3 + 1))
                            } else {
                                None
                            },
                            None => None,
                        }
                    } else {
                        None
                    },
                    None => None,
                }
            } else {
                None
            },
            None => None,
        }
    }
}

/// Parsing a written transfer unit at its place in a larger byte string
/// gives the unit back.
pub proof fn lemma_sp_transfer_of_enc(w: Seq<u8>, i: int, t: TransferV)
    requires
        valid_str(t.filename),
        t.file.hash.len() == 20,
        match_at(w, i, enc_transfer(t)),
    ensures
        sp_transfer(w, i) == Some((t, i + enc_transfer(t).len())),
{
    let p1 = lit_filename();
    let p2 = enc_str(t.filename);
    let p3 = lit_file();
    let p4 = enc_file(t.file);
    let p5 = lit_data();
    let p6 = enc_arr(t.data);
    let c1 = p1 + p2;
    let c2 = c1 + p3;
    let c3 = c2 + p4;
    let c4 = c3 + p5;
    let c5 = c4 + p6;
    assert(enc_transfer(t) == c5 + seq![125u8]);
    crate::codec::lemma_split2(w, i, c5, seq![125u8]);
    crate::codec::lemma_split2(w, i, c4, p6);
    crate::codec::lemma_split2(w, i, c3, p5);
    crate::codec::lemma_split2(w, i, c2, p4);
    crate::codec::lemma_split2(w, i, c1, p3);
    crate::codec::lemma_split2(w, i, p1, p2);
    let o1: int = 12;
    let o2 = o1 + p2.len();
    let o3 = o2 + 8;
    let o4 = o3 + p4.len();
    let o5 = o4 + 8;
    let o6 = o5 + p6.len();
    crate::codec::lemma_match_byte(w, i + c5.len(), 125);
    lemma_sp_str_of_enc(w, i + o1, t.filename);
    lemma_sp_file_of_enc(w, i + o3, t.file);
    lemma_sp_arr_of_enc(w, i + o5, t.data);
    assert(w[i + o6] == 125);
}

fn lit_filename_vec() -> (r: Vec<u8>)
    ensures
        r@ == lit_filename(),
{
    let mut v: Vec<u8> = Vec::new();
    v.push(123);
    v.push(34);
    v.push(102);
    v.push(105);
    v.push(108);
    v.push(101);
    v.push(110);
    v.push(97);
    v.push(109);
    v.push(101);
    v.push(34);
    v.push(58);
    proof {
        assert(v@ =~= lit_filename());
    }
    v
}

fn lit_file_vec() -> (r: Vec<u8>)
    ensures
        r@ == lit_file(),
{
    let mut v: Vec<u8> = Vec::new();
    v.push(44);
    v.push(34);
    v.push(102);
    v.push(105);
    v.push(108);
    v.push(101);
    v.push(34);
    v.push(58);
    proof {
        assert(v@ =~= lit_file());
    }
    v
}

fn lit_data_vec() -> (r: Vec<u8>)
    ensures
        r@ == lit_data(),
{
    let mut v: Vec<u8> = Vec::new();
    v.push(44);
    v.push(34);
    v.push(100);
    v.push(97);
    v.push(116);
    v.push(97);
    v.push(34);
    v.push(58);
    proof {
        assert(v@ =~= lit_data());
    }
    v
}

impl DataTransfer {
    pub fn new(filename: Vec<u8>, file: File, data: Vec<u8>) -> (r: Self)
        ensures
            r@ == (TransferV { filename: filename@, file: file@, data: data@ }),
    {
        Self { filename, file, data }
    }

    pub fn filename(&self) -> (r: &Vec<u8>)
        ensures
            r@ == self@.filename,
    {
        &self.filename
    }

    pub fn file(&self) -> (r: &File)
        ensures
            r@ == self@.file,
    {
        &self.file
    }

    pub fn data(&self) -> (r: &Vec<u8>)
        ensures
            r@ == self@.data,
    {
        &self.data
    }

    /// The transfer unit as its canonical JSON object.
    pub fn to_vec(&self) -> (r: Vec<u8>)
        ensures
            r@ == enc_transfer(self@),
    {
        let mut out: Vec<u8> = Vec::new();
        emit_lit(&mut out, &lit_filename_vec());
        emit_str(&mut out, &self.filename);
        emit_lit(&mut out, &lit_file_vec());
        crate::codec::emit_file(&mut out, &self.file);
        emit_lit(&mut out, &lit_data_vec());
        emit_arr(&mut out, &self.data);
        out.push(125);
        proof {
            assert(out@ =~= enc_transfer(self@));
        }
        out
    }

    /// Read a transfer unit back from its bytes; the whole byte string
    /// must be one well-formed object.
    pub fn from_vec(data: &Vec<u8>) -> (r: Result<Self, JsonError>)
        ensures
            match r {
                Ok(t) => sp_transfer(data@, 0) == Some((t@, data@.len() as int)),
                Err(JsonError::Malformed) => match sp_transfer(data@, 0) {
                    Some(t) => t.1 != data@.len(),
                    None => true,
                },
                Err(JsonError::DuplicateKey) => false,
            },
    {
        let slen: usize = data.len();
        if !expect(data, 0, &lit_filename_vec()) {
            return Err(JsonError::Malformed);
        }
        let (p, j1) = match parse_str(data, 12) {
            Some(t) => t,
            None => {
                return Err(JsonError::Malformed);
            },
        };
        if !expect(data, j1, &lit_file_vec()) {
            return Err(JsonError::Malformed);
        }
        let (f, j2) = match parse_file(data, j1 + 8) {
            Some(t) => t,
            None => {
                return Err(JsonError::Malformed);
            },
        };
        if !expect(data, j2, &lit_data_vec()) {
            return Err(JsonError::Malformed);
        }
        let (d, j3) = match parse_arr(data, j2 + 8) {
            Some(t) => t,
            None => {
                return Err(JsonError::Malformed);
            },
        };
        if j3 >= data.len() || data[j3] != 125 {
            return Err(JsonError::Malformed);
        }
        if j3 + 1 != data.len() {
            return Err(JsonError::Malformed);
        }
        Ok(Self { filename: p, file: f, data: d })
    }
}

/// True when the literal stands at `i`.
fn expect(s: &Vec<u8>, i: usize, lit: &Vec<u8>) -> (r: bool)
    ensures
        r == match_at(s@, i as int, lit@),
{
    crate::codec::expect_lit(s, i, lit)
}

/// Append every byte of `lit`.
fn emit_lit(out: &mut Vec<u8>, lit: &Vec<u8>)
    ensures
        final(out)@ == old(out)@ + lit@,
{
    crate::codec::emit_lit_bytes(out, lit)
}

// ---------------------------------------------------------------------------
// the update answer
// ---------------------------------------------------------------------------
/// The pair of work lists the server sends once per session.
#[derive(Debug, Clone, PartialEq)]
pub struct UpdateAnswer {
    pub server_todo: Files,
    pub client_todo: Files,
}

pub open spec fn lit_server_todo() -> Seq<u8> {
    seq![123u8, 34, 115, 101, 114, 118, 101, 114, 95, 116, 111, 100, 111, 34, 58]
}

pub open spec fn lit_client_todo() -> Seq<u8> {
    seq![44u8, 34, 99, 108, 105, 101, 110, 116, 95, 116, 111, 100, 111, 34, 58]
}

/// The object an update answer is written as: the two snapshots under
/// fixed names.
pub open spec fn enc_answer(st: Seq<(Seq<u8>, FileV)>, ct: Seq<(Seq<u8>, FileV)>) -> Seq<u8> {
    lit_server_todo() + enc_files(st) + lit_client_todo() + enc_files(ct) + seq![125u8]
}

/// Read an update answer at `i`.
pub open spec fn sp_answer(s: Seq<u8>, i: int) -> Option<
    ((Seq<(Seq<u8>, FileV)>, Seq<(Seq<u8>, FileV)>), int),
> {
    if !match_at(s, i, lit_server_todo()) {
        None
    } else {
        match sp_files(s, i + 15) {
            Some((st, j1)) => if match_at(s, j1, lit_client_todo()) {
                match sp_files(s, j1 + 15) {
                    Some((ct, j2)) => if 0 <= j2 < s.len() && s[j2] == 125 {
                        Some(((st, ct), j2 + 1))
                    } else {
                        None
                    },
                    None => None,
                }
            } else {
                None
            },
            None => None,
        }
    }
}

/// Parsing a written update answer at its place in a larger byte string
/// gives both entry lists back.
#[verifier::rlimit(100)]
#[verifier::spinoff_prover]
pub proof fn lemma_sp_answer_of_enc(
    w: Seq<u8>,
    i: int,
    st: Seq<(Seq<u8>, FileV)>,
    ct: Seq<(Seq<u8>, FileV)>,
)
    requires
        valid_entries(st),
        valid_entries(ct),
        match_at(w, i, enc_answer(st, ct)),
    ensures
        sp_answer(w, i) == Some(((st, ct), i + enc_answer(st, ct).len())),
{
    let p1 = lit_server_todo();
    let p2 = enc_files(st);
    let p3 = lit_client_todo();
    let p4 = enc_files(ct);
    let c1 = p1 + p2;
    let c2 = c1 + p3;
    let c3 = c2 + p4;
    assert(enc_answer(st, ct) == c3 + seq![125u8]);
    crate::codec::lemma_split2(w, i, c3, seq![125u8]);
    crate::codec::lemma_split2(w, i, c2, p4);
    crate::codec::lemma_split2(w, i, c1, p3);
    crate::codec::lemma_split2(w, i, p1, p2);
    let o1: int = 15;
    let o2 = o1 + p2.len();
    let o3 = o2 + 15;
    let o4 = o3 + p4.len();
    crate::codec::lemma_match_byte(w, i + c3.len(), 125);
    lemma_sp_files_of_enc(w, i + o1, st);
    lemma_sp_files_of_enc(w, i + o3, ct);
    assert(w[i + o4] == 125);
}

fn lit_server_todo_vec() -> (r: Vec<u8>)
    ensures
        r@ == lit_server_todo(),
{
    let mut v: Vec<u8> = Vec::new();
    v.push(123);
    v.push(34);
    v.push(115);
    v.push(101);
    v.push(114);
    v.push(118);
    v.push(101);
    v.push(114);
    v.push(95);
    v.push(116);
    v.push(111);
    v.push(100);
    v.push(111);
    v.push(34);
    v.push(58);
    proof {
        assert(v@ =~= lit_server_todo());
    }
    v
}

fn lit_client_todo_vec() -> (r: Vec<u8>)
    ensures
        r@ == lit_client_todo(),
{
    let mut v: Vec<u8> = Vec::new();
    v.push(44);
    v.push(34);
    v.push(99);
    v.push(108);
    v.push(105);
    v.push(101);
    v.push(110);
    v.push(116);
    v.push(95);
    v.push(116);
    v.push(111);
    v.push(100);
    v.push(111);
    v.push(34);
    v.push(58);
    proof {
        assert(v@ =~= lit_client_todo());
    }
    v
}

impl UpdateAnswer {
    pub fn from_json(server_todo: Files, client_todo: Files) -> (r: UpdateAnswer)
        ensures
            r.server_todo == server_todo,
            r.client_todo == client_todo,
    {
        UpdateAnswer { server_todo, client_todo }
    }

    pub fn data(self) -> (r: (Files, Files))
        ensures
            r.0 == self.server_todo,
            r.1 == self.client_todo,
    {
        (self.server_todo, self.client_todo)
    }

    /// The answer as its canonical JSON object.
    pub fn to_vec(&self) -> (r: Vec<u8>)
        ensures
            r@ == enc_answer(self.server_todo.kv(), self.client_todo.kv()),
    {
        let mut out: Vec<u8> = Vec::new();
        emit_lit(&mut out, &lit_server_todo_vec());
        let sb = self.server_todo.to_vec();
        emit_lit(&mut out, &sb);
        emit_lit(&mut out, &lit_client_todo_vec());
        let cb = self.client_todo.to_vec();
        emit_lit(&mut out, &cb);
        out.push(125);
        proof {
            assert(out@ =~= enc_answer(self.server_todo.kv(), self.client_todo.kv()));
        }
        out
    }

    /// Read an answer back from its bytes; the whole byte string must be
    /// one well-formed object and neither list may repeat a path.
    pub fn from_vec(data: &Vec<u8>) -> (r: Result<Self, JsonError>)
        ensures
            match r {
                Ok(t) => {
                    &&& sp_answer(data@, 0) == Some(
                        ((t.server_todo.kv(), t.client_todo.kv()), data@.len() as int),
                    )
                    &&& t.server_todo.wf()
                    &&& t.client_todo.wf()
                },
                Err(JsonError::Malformed) => match sp_answer(data@, 0) {
                    Some(t) => t.1 != data@.len(),
                    None => true,
                },
                Err(JsonError::DuplicateKey) => match sp_answer(data@, 0) {
                    Some(t) => t.1 == data@.len() && (!unique_keys(t.0.0) || !unique_keys(t.0.1)),
                    None => false,
                },
            },
    {
        let slen: usize = data.len();
        if !expect(data, 0, &lit_server_todo_vec()) {
            return Err(JsonError::Malformed);
        }
        let (st_entries, j1) = match parse_files(data, 15) {
            Some(t) => t,
            None => {
                return Err(JsonError::Malformed);
            },
        };
        if !expect(data, j1, &lit_client_todo_vec()) {
            return Err(JsonError::Malformed);
        }
        let (ct_entries, j2) = match parse_files(data, j1 + 15) {
            Some(t) => t,
            None => {
                return Err(JsonError::Malformed);
            },
        };
        if j2 >= data.len() || data[j2] != 125 {
            return Err(JsonError::Malformed);
        }
        if j2 + 1 != data.len() {
            return Err(JsonError::Malformed);
        }
        let server_todo = match files_from_entries(st_entries) {
            Ok(f) => f,
            Err(_) => {
                return Err(JsonError::DuplicateKey);
            },
        };
        let client_todo = match files_from_entries(ct_entries) {
            Ok(f) => f,
            Err(_) => {
                return Err(JsonError::DuplicateKey);
            },
        };
        Ok(UpdateAnswer { server_todo, client_todo })
    }
}

} // verus!
