use vstd::prelude::*;

use crate::file::File;
use crate::file::FileV;
use crate::files::Files;
use crate::files::clone_bytes;
use crate::files::kv_of;
use crate::files::lemma_map_of_contains;
use crate::files::stored_form;
use crate::files::unique_keys;
use crate::json::dec_digits;
use crate::json::emit_arr;
use crate::json::emit_i64;
use crate::json::emit_str;
use crate::json::emit_u64;
use crate::json::enc_arr;
use crate::json::enc_i64;
use crate::json::enc_str;
use crate::json::lemma_dec_digits_props;
use crate::json::lemma_sp_arr_of_enc;
use crate::json::lemma_sp_str_of_enc;
use crate::json::lemma_sp_u64_of_enc;
use crate::json::lemma_sp_i64_of_enc;
use crate::json::parse_arr;
use crate::json::parse_i64;
use crate::json::parse_str;
use crate::json::parse_u64;
use crate::json::sp_arr;
use crate::json::sp_i64;
use crate::json::sp_str;
use crate::json::sp_u64;
use crate::json::valid_str;
use crate::state::State;

verus! {

// ---------------------------------------------------------------------------
// state tags as strings
// ---------------------------------------------------------------------------
/// The name a state tag is written as.
pub open spec fn state_lit(st: State) -> Seq<u8> {
    match st {
        State::Unchanged => seq![85u8, 110, 99, 104, 97, 110, 103, 101, 100],
        State::Created => seq![67u8, 114, 101, 97, 116, 101, 100],
        State::Edited => seq![69u8, 100, 105, 116, 101, 100],
        State::Deleted => seq![68u8, 101, 108, 101, 116, 101, 100],
    }
}

/// The state tag a name is read back as.
pub open spec fn state_of_bytes(b: Seq<u8>) -> Option<State> {
    if b == state_lit(State::Unchanged) {
        Some(State::Unchanged)
    } else if b == state_lit(State::Created) {
        Some(State::Created)
    } else if b == state_lit(State::Edited) {
        Some(State::Edited)
    } else if b == state_lit(State::Deleted) {
        Some(State::Deleted)
    } else {
        None
    }
}

pub proof fn lemma_state_lit_props(st: State)
    ensures
        state_of_bytes(state_lit(st)) == Some(st),
        valid_str(state_lit(st)),
        state_lit(st).len() > 0,
        forall|k: int|
            0 <= k < state_lit(st).len() ==> state_lit(st)[k] != 34 && state_lit(st)[k] != 92,
{
    let u = state_lit(State::Unchanged);
    let c = state_lit(State::Created);
    let e = state_lit(State::Edited);
    let d = state_lit(State::Deleted);
    assert(c[0] == 67 && e[0] == 69 && d[0] == 68);
    assert(c != e && c != d && e != d);
    assert(u.len() != c.len() && u.len() != e.len() && u.len() != d.len());
    assert forall|k: int| 0 <= k < state_lit(st).len() implies state_lit(st)[k] >= 0x20 && state_lit(
        st,
    )[k] != 34 && state_lit(st)[k] != 92 by {}
}

fn emit_state(out: &mut Vec<u8>, st: &State)
    ensures
        final(out)@ == old(out)@ + state_lit(*st),
{
    match st {
        State::Unchanged => {
            out.push(85);
            out.push(110);
            out.push(99);
            out.push(104);
            out.push(97);
            out.push(110);
            out.push(103);
            out.push(101);
            out.push(100);
        },
        State::Created => {
            out.push(67);
            out.push(114);
            out.push(101);
            out.push(97);
            out.push(116);
            out.push(101);
            out.push(100);
        },
        State::Edited => {
            out.push(69);
            out.push(100);
            out.push(105);
            out.push(116);
            out.push(101);
            out.push(100);
        },
        State::Deleted => {
            out.push(68);
            out.push(101);
            out.push(108);
            out.push(101);
            out.push(116);
            out.push(101);
            out.push(100);
        },
    }
    proof {
        assert(out@ =~= old(out)@ + state_lit(*st));
    }
}

fn state_from_bytes(b: &Vec<u8>) -> (r: Option<State>)
    ensures
        r == state_of_bytes(b@),
{
    if b.len() == 9 && b[0] == 85 && b[1] == 110 && b[2] == 99 && b[3] == 104 && b[4] == 97 && b[5]
        == 110 && b[6] == 103 && b[7] == 101 && b[8] == 100 {
        proof {
            assert(b@ =~= state_lit(State::Unchanged));
        }
        Some(State::Unchanged)
    } else if b.len() == 7 && b[0] == 67 && b[1] == 114 && b[2] == 101 && b[3] == 97 && b[4] == 116
        && b[5] == 101 && b[6] == 100 {
        proof {
            assert(b@ =~= state_lit(State::Created));
        }
        Some(State::Created)
    } else if b.len() == 6 && b[0] == 69 && b[1] == 100 && b[2] == 105 && b[3] == 116 && b[4] == 101
        && b[5] == 100 {
        proof {
            assert(b@ =~= state_lit(State::Edited));
        }
        Some(State::Edited)
    } else if b.len() == 7 && b[0] == 68 && b[1] == 101 && b[2] == 108 && b[3] == 101 && b[4] == 116
        && b[5] == 101 && b[6] == 100 {
        proof {
            assert(b@ =~= state_lit(State::Deleted));
        }
        Some(State::Deleted)
    } else {
        proof {
            assert(b@ != state_lit(State::Unchanged));
            assert(b@ != state_lit(State::Created));
            assert(b@ != state_lit(State::Edited));
            assert(b@ != state_lit(State::Deleted));
        }
        None
    }
}

// ---------------------------------------------------------------------------
// fixed field names
// ---------------------------------------------------------------------------
pub open spec fn lit_mtime() -> Seq<u8> {
    seq![123u8, 34, 109, 116, 105, 109, 101, 34, 58]
}

pub open spec fn lit_size() -> Seq<u8> {
    seq![44u8, 34, 115, 105, 122, 101, 34, 58]
}

pub open spec fn lit_hash() -> Seq<u8> {
    seq![44u8, 34, 104, 97, 115, 104, 34, 58]
}

pub open spec fn lit_state() -> Seq<u8> {
    seq![44u8, 34, 115, 116, 97, 116, 101, 34, 58]
}

/// A position holds the given bytes.
pub open spec fn match_at(s: Seq<u8>, i: int, lit: Seq<u8>) -> bool {
    &&& 0 <= i
    &&& i + lit.len() <= s.len()
    &&& s.subrange(i, i + lit.len()) == lit
}

/// True when the literal stands at `i`.
pub(crate) fn expect_lit(s: &Vec<u8>, i: usize, lit: &Vec<u8>) -> (r: bool)
    ensures
        r == match_at(s@, i as int, lit@),
{
    if i > s.len() || s.len() - i < lit.len() {
        return false;
    }
    let mut k: usize = 0;
    while k < lit.len()
        invariant
            k <= lit@.len(),
            i + lit@.len() <= s@.len(),
            s@.len() <= usize::MAX,
            forall|j: int| 0 <= j < k ==> s@[i + j] == lit@[j],
        decreases lit@.len() - k,
    {
        if s[i + k] != lit[k] {
            proof {
                assert(s@.subrange(i as int, i + lit@.len())[k as int] != lit@[k as int]);
            }
            return false;
        }
        k += 1;
    }
    proof {
        assert(s@.subrange(i as int, i + lit@.len()) =~= lit@);
    }
    true
}

fn lit_mtime_vec() -> (r: Vec<u8>)
    ensures
        r@ == lit_mtime(),
{
    let mut v: Vec<u8> = Vec::new();
    v.push(123);
    v.push(34);
    v.push(109);
    v.push(116);
    v.push(105);
    v.push(109);
    v.push(101);
    v.push(34);
    v.push(58);
    proof {
        assert(v@ =~= lit_mtime());
    }
    v
}

fn lit_size_vec() -> (r: Vec<u8>)
    ensures
        r@ == lit_size(),
{
    let mut v: Vec<u8> = Vec::new();
    v.push(44);
    v.push(34);
    v.push(115);
    v.push(105);
    v.push(122);
    v.push(101);
    v.push(34);
    v.push(58);
    proof {
        assert(v@ =~= lit_size());
    }
    v
}

fn lit_hash_vec() -> (r: Vec<u8>)
    ensures
        r@ == lit_hash(),
{
    let mut v: Vec<u8> = Vec::new();
    v.push(44);
    v.push(34);
    v.push(104);
    v.push(97);
    v.push(115);
    v.push(104);
    v.push(34);
    v.push(58);
    proof {
        assert(v@ =~= lit_hash());
    }
    v
}

fn lit_state_vec() -> (r: Vec<u8>)
    ensures
        r@ == lit_state(),
{
    let mut v: Vec<u8> = Vec::new();
    v.push(44);
    v.push(34);
    v.push(115);
    v.push(116);
    v.push(97);
    v.push(116);
    v.push(101);
    v.push(34);
    v.push(58);
    proof {
        assert(v@ =~= lit_state());
    }
    v
}

// ---------------------------------------------------------------------------
// one file entry's value
// ---------------------------------------------------------------------------
/// The object a file entry is written as.
pub open spec fn enc_file(f: FileV) -> Seq<u8> {
    lit_mtime() + enc_i64(f.mtime) + lit_size() + dec_digits(f.size as nat) + lit_hash() + enc_arr(
        f.hash,
    ) + lit_state() + enc_str(state_lit(f.state)) + seq![125u8]
}

/// Read a file object at `i`: the four fields in a fixed order.
pub open spec fn sp_file(s: Seq<u8>, i: int) -> Option<(FileV, int)> {
    if !match_at(s, i, lit_mtime()) {
        None
    } else {
        match sp_i64(s, i + 9) {
            Some((mtime, j1)) => if match_at(s, j1, lit_size()) {
                match sp_u64(s, j1 + 8) {
                    Some((size, j2)) => if match_at(s, j2, lit_hash()) {
                        match sp_arr(s, j2 + 8) {
                            Some((h, j3)) => if h.len() == 20 && match_at(s, j3, lit_state()) {
                                match sp_str(s, j3 + 9) {
                                    Some((sb, j4)) => match state_of_bytes(sb) {
                                        Some(st) => if 0 <= j4 < s.len() && s[j4] == 125 {
                                            Some(
                                                (
                                                    FileV { mtime, size, hash: h, state: st },
                                                    j4 + 1,
                                                ),
                                            )
                                        } else {
                                            None
                                        },
                                        None => None,
                                    },
                                    None => None,
                                }
                            } else {
                                None
                            },
                            None => None,
                        }
                    } else {
                        None
                    },
                    None => None,
                }
            } else {
                None
            },
            None => None,
        }
    }
}

/// A window that holds a concatenation holds each half at its place.
pub(crate) proof fn lemma_split2(w: Seq<u8>, i: int, a: Seq<u8>, b: Seq<u8>)
    requires
        match_at(w, i, a + b),
    ensures
        match_at(w, i, a),
        match_at(w, i + a.len(), b),
{
    assert((a + b).subrange(0, a.len() as int) =~= a);
    assert((a + b).subrange(a.len() as int, (a + b).len() as int) =~= b);
    lemma_window(w, i, a + b, 0, a);
    lemma_window(w, i, a + b, a.len() as int, b);
}

/// A matched single byte stands at its place.
pub(crate) proof fn lemma_match_byte(w: Seq<u8>, i: int, b: u8)
    requires
        match_at(w, i, seq![b]),
    ensures
        0 <= i < w.len() && w[i] == b,
{
    assert(w.subrange(i, i + 1)[0] == b);
}

/// A sub-piece of a matched window stands at its shifted place.
pub(crate) proof fn lemma_window(w: Seq<u8>, i: int, whole: Seq<u8>, a: int, part: Seq<u8>)
    requires
        match_at(w, i, whole),
        0 <= a,
        a + part.len() <= whole.len(),
        whole.subrange(a, a + part.len()) == part,
    ensures
        match_at(w, i + a, part),
    decreases w.len(),
{
    assert forall|k: int| 0 <= k < part.len() implies w.subrange(i + a, i + a + part.len())[k]
        == part[k] by {
        assert(w.subrange(i, i + whole.len())[a + k] == whole[a + k]);
        assert(whole.subrange(a, a + part.len())[k] == whole[a + k]);
    }
    assert(w.subrange(i + a, i + a + part.len()) =~= part);
}

/// Parsing a written file object at its place in a larger byte string
/// gives the entry back.
pub proof fn lemma_sp_file_of_enc(w: Seq<u8>, i: int, f: FileV)
    requires
        f.hash.len() == 20,
        match_at(w, i, enc_file(f)),
    ensures
        sp_file(w, i) == Some((f, i + enc_file(f).len())),
{
    let p1 = lit_mtime();
    let p2 = enc_i64(f.mtime);
    let p3 = lit_size();
    let p4 = dec_digits(f.size as nat);
    let p5 = lit_hash();
    let p6 = enc_arr(f.hash);
    let p7 = lit_state();
    let p8 = enc_str(state_lit(f.state));
    let c1 = p1 + p2;
    let c2 = c1 + p3;
    let c3 = c2 + p4;
    let c4 = c3 + p5;
    let c5 = c4 + p6;
    let c6 = c5 + p7;
    let c7 = c6 + p8;
    lemma_dec_digits_props(f.size as nat);
    lemma_state_lit_props(f.state);
    assert(enc_file(f) == c7 + seq![125u8]);
    lemma_split2(w, i, c7, seq![125u8]);
    lemma_split2(w, i, c6, p8);
    lemma_split2(w, i, c5, p7);
    lemma_split2(w, i, c4, p6);
    lemma_split2(w, i, c3, p5);
    lemma_split2(w, i, c2, p4);
    lemma_split2(w, i, c1, p3);
    lemma_split2(w, i, p1, p2);
    let o1: int = 9;
    let o2 = o1 + p2.len();
    let o3 = o2 + 8;
    let o4 = o3 + p4.len();
    let o5 = o4 + 8;
    let o6 = o5 + p6.len();
    let o7 = o6 + 9;
    let o8 = o7 + p8.len();
    lemma_match_byte(w, i + c7.len(), 125);
    // the byte after each number is a comma, never a digit
    assert(w[i + o2] == 44) by {
        assert(w.subrange(i + o2, i + o2 + 8)[0] == lit_size()[0]);
    }
    lemma_sp_i64_of_enc(w, i + o1, f.mtime);
    assert(w[i + o4] == 44) by {
        assert(w.subrange(i + o4, i + o4 + 8)[0] == lit_hash()[0]);
    }
    lemma_sp_u64_of_enc(w, i + o3, f.size);
    lemma_sp_arr_of_enc(w, i + o5, f.hash);
    lemma_sp_str_of_enc(w, i + o7, state_lit(f.state));
    assert(w[i + o8] == 125);
}

/// Append a file entry as its object.
pub fn emit_file(out: &mut Vec<u8>, f: &File)
    ensures
        final(out)@ == old(out)@ + enc_file(f@),
{
    emit_lit_bytes(out, &lit_mtime_vec());
    emit_i64(out, f.mtime);
    emit_lit_bytes(out, &lit_size_vec());
    emit_u64(out, f.size);
    emit_lit_bytes(out, &lit_hash_vec());
    let hv = hash_to_vec(&f.hash);
    emit_arr(out, &hv);
    emit_lit_bytes(out, &lit_state_vec());
    out.push(34);
    emit_state(out, &f.state);
    out.push(34);
    out.push(125);
    proof {
        lemma_state_lit_props(f@.state);
        crate::json::lemma_enc_str_body_all_plain(state_lit(f@.state));
        assert(seq![34u8] + state_lit(f@.state) + seq![34u8] =~= enc_str(state_lit(f@.state)));
        assert(out@ =~= old(out)@ + enc_file(f@));
    }
}

/// Append every byte of `lit`.
pub(crate) fn emit_lit_bytes(out: &mut Vec<u8>, lit: &Vec<u8>)
    ensures
        final(out)@ == old(out)@ + lit@,
{
    let mut k: usize = 0;
    while k < lit.len()
        invariant
            k <= lit@.len(),
            out@ == old(out)@ + lit@.subrange(0, k as int),
        decreases lit@.len() - k,
    {
        out.push(lit[k]);
        proof {
            assert(out@ =~= old(out)@ + lit@.subrange(0, k + 1));
        }
        k += 1;
    }
    proof {
        assert(lit@.subrange(0, lit@.len() as int) =~= lit@);
    }
}

/// The twenty digest bytes as a vector.
fn hash_to_vec(h: &[u8; 20]) -> (r: Vec<u8>)
    ensures
        r@ == h@,
{
    let mut v: Vec<u8> = Vec::new();
    let mut k: usize = 0;
    while k < 20
        invariant
            k <= 20,
            v@.len() == k,
            forall|j: int| 0 <= j < k ==> v@[j] == h@[j],
        decreases 20 - k,
    {
        v.push(h[k]);
        k += 1;
    }
    proof {
        assert(v@ =~= h@);
    }
    v
}

/// The twenty parsed bytes as a digest.
fn vec_to_hash(v: &Vec<u8>) -> (r: [u8; 20])
    requires
        v@.len() == 20,
    ensures
        r@ == v@,
{
    let out: [u8; 20] = [v[0], v[1], v[2], v[3], v[4], v[5], v[6], v[7], v[8], v[9], v[10], v[11],
        v[12], v[13], v[14], v[15], v[16], v[17], v[18], v[19]];
    proof {
        assert(out@ =~= v@);
    }
    out
}

/// Read a file object at `i`.
pub fn parse_file(s: &Vec<u8>, i: usize) -> (r: Option<(File, usize)>)
    requires
        i <= s@.len(),
    ensures
        match r {
            Some(t) => sp_file(s@, i as int) == Some((t.0@, t.1 as int)) && i < t.1 <= s@.len(),
            None => sp_file(s@, i as int) is None,
        },
{
    let slen: usize = s.len();
    if !expect_lit(s, i, &lit_mtime_vec()) {
        return None;
    }
    let (mtime, j1) = match parse_i64(s, i + 9) {
        Some(t) => t,
        None => {
            return None;
        },
    };
    if !expect_lit(s, j1, &lit_size_vec()) {
        return None;
    }
    let (size, j2) = match parse_u64(s, j1 + 8) {
        Some(t) => t,
        None => {
            return None;
        },
    };
    if !expect_lit(s, j2, &lit_hash_vec()) {
        return None;
    }
    let (hv, j3) = match parse_arr(s, j2 + 8) {
        Some(t) => t,
        None => {
            return None;
        },
    };
    if hv.len() != 20 {
        return None;
    }
    if !expect_lit(s, j3, &lit_state_vec()) {
        return None;
    }
    let (sb, j4) = match parse_str(s, j3 + 9) {
        Some(t) => t,
        None => {
            return None;
        },
    };
    let st = match state_from_bytes(&sb) {
        Some(st) => st,
        None => {
            return None;
        },
    };
    if j4 >= s.len() || s[j4] != 125 {
        return None;
    }
    let hash = vec_to_hash(&hv);
    Some((File { mtime, size, hash, state: st }, j4 + 1))
}

// ---------------------------------------------------------------------------
// the snapshot object
// ---------------------------------------------------------------------------
/// One `"path":{...}` member.
pub open spec fn enc_entry(p: Seq<u8>, f: FileV) -> Seq<u8> {
    enc_str(p) + seq![58u8] + enc_file(f)
}

pub open spec fn enc_files_rest(e: Seq<(Seq<u8>, FileV)>) -> Seq<u8>
    decreases e.len(),
{
    if e.len() == 0 {
        Seq::empty()
    } else {
        seq![44u8] + enc_entry(e[0].0, e[0].1) + enc_files_rest(e.skip(1))
    }
}

/// The object a snapshot is written as, one member per entry, in entry
/// order.
pub open spec fn enc_files(e: Seq<(Seq<u8>, FileV)>) -> Seq<u8> {
    if e.len() == 0 {
        seq![123u8, 125u8]
    } else {
        seq![123u8] + enc_entry(e[0].0, e[0].1) + enc_files_rest(e.skip(1)) + seq![125u8]
    }
}

/// The keys can stand in a JSON string and the digests have their twenty
/// bytes: what the writer needs of a snapshot's entry list.
pub open spec fn valid_entries(e: Seq<(Seq<u8>, FileV)>) -> bool {
    forall|k: int| 0 <= k < e.len() ==> valid_str(e[k].0) && e[k].1.hash.len() == 20
}

pub open spec fn sp_entry(s: Seq<u8>, i: int) -> Option<((Seq<u8>, FileV), int)> {
    match sp_str(s, i) {
        Some((p, j)) => if 0 <= j < s.len() && s[j] == 58 {
            match sp_file(s, j + 1) {
                Some((f, k)) => Some(((p, f), k)),
                None => None,
            }
        } else {
            None
        },
        None => None,
    }
}

pub open spec fn sp_files_rest(s: Seq<u8>, i: int, acc: Seq<(Seq<u8>, FileV)>) -> Option<
    (Seq<(Seq<u8>, FileV)>, int),
>
    decreases s.len() - i,
{
    if i < 0 || i >= s.len() {
        None
    } else if s[i] == 125 {
        Some((acc, i + 1))
    } else if s[i] == 44 {
        match sp_entry(s, i + 1) {
            Some((e, j)) => if i + 1 < j && j <= s.len() {
                sp_files_rest(s, j, acc.push(e))
            } else {
                None
            },
            None => None,
        }
    } else {
        None
    }
}

/// Read a snapshot object at `i`.
pub open spec fn sp_files(s: Seq<u8>, i: int) -> Option<(Seq<(Seq<u8>, FileV)>, int)> {
    if 0 <= i < s.len() && s[i] == 123 {
        if i + 1 < s.len() && s[i + 1] == 125 {
            Some((Seq::empty(), i + 2))
        } else {
            match sp_entry(s, i + 1) {
                Some((e, j)) => if i + 1 < j && j <= s.len() {
                    sp_files_rest(s, j, seq![e])
                } else {
                    None
                },
                None => None,
            }
        }
    } else {
        None
    }
}

pub proof fn lemma_sp_entry_of_enc(w: Seq<u8>, i: int, p: Seq<u8>, f: FileV)
    requires
        valid_str(p),
        f.hash.len() == 20,
        match_at(w, i, enc_entry(p, f)),
    ensures
        sp_entry(w, i) == Some(((p, f), i + enc_entry(p, f).len())),
{
    let sl = enc_str(p).len() as int;
    assert(enc_entry(p, f) == (enc_str(p) + seq![58u8]) + enc_file(f));
    lemma_split2(w, i, enc_str(p) + seq![58u8], enc_file(f));
    lemma_split2(w, i, enc_str(p), seq![58u8]);
    lemma_match_byte(w, i + sl, 58);
    lemma_sp_str_of_enc(w, i, p);
    lemma_sp_file_of_enc(w, i + sl + 1, f);
}

pub proof fn lemma_enc_files_rest_push(e: Seq<(Seq<u8>, FileV)>, x: (Seq<u8>, FileV))
    ensures
        enc_files_rest(e.push(x)) == enc_files_rest(e) + seq![44u8] + enc_entry(x.0, x.1),
    decreases e.len(),
{
    if e.len() == 0 {
        assert(e.push(x)[0] == x);
        assert(e.push(x).skip(1) =~= Seq::<(Seq<u8>, FileV)>::empty());
        assert(enc_files_rest(Seq::<(Seq<u8>, FileV)>::empty()) == Seq::<u8>::empty());
        assert(enc_files_rest(e.push(x)) =~= enc_files_rest(e) + seq![44u8] + enc_entry(
            x.0,
            x.1,
        ));
    } else {
        assert(e.push(x).skip(1) =~= e.skip(1).push(x));
        lemma_enc_files_rest_push(e.skip(1), x);
        assert(enc_files_rest(e.push(x)) == seq![44u8] + enc_entry(e[0].0, e[0].1) + (
        enc_files_rest(e.skip(1)) + seq![44u8] + enc_entry(x.0, x.1)));
        assert(seq![44u8] + enc_entry(e[0].0, e[0].1) + (enc_files_rest(e.skip(1)) + seq![44u8]
            + enc_entry(x.0, x.1)) =~= (seq![44u8] + enc_entry(e[0].0, e[0].1) + enc_files_rest(
            e.skip(1),
        )) + seq![44u8] + enc_entry(x.0, x.1));
    }
}

proof fn lemma_sp_files_rest_of_enc(
    w: Seq<u8>,
    i: int,
    e: Seq<(Seq<u8>, FileV)>,
    acc: Seq<(Seq<u8>, FileV)>,
)
    requires
        valid_entries(e),
        0 <= i,
        i + enc_files_rest(e).len() < w.len(),
        w.subrange(i, i + enc_files_rest(e).len()) == enc_files_rest(e),
        w[i + enc_files_rest(e).len()] == 125,
    ensures
        sp_files_rest(w, i, acc) == Some((acc + e, i + enc_files_rest(e).len() + 1)),
    decreases e.len(),
{
    let l = enc_files_rest(e).len() as int;
    if e.len() == 0 {
        assert(w[i] == 125);
        assert(acc + e =~= acc);
    } else {
        let x = e[0];
        let el = enc_entry(x.0, x.1).len() as int;
        let rest = e.skip(1);
        assert(enc_files_rest(e) == (seq![44u8] + enc_entry(x.0, x.1)) + enc_files_rest(rest));
        lemma_split2(w, i, seq![44u8] + enc_entry(x.0, x.1), enc_files_rest(rest));
        lemma_split2(w, i, seq![44u8], enc_entry(x.0, x.1));
        lemma_match_byte(w, i, 44);
        assert(valid_str(x.0) && x.1.hash.len() == 20);
        lemma_sp_entry_of_enc(w, i + 1, x.0, x.1);
        assert(valid_entries(rest)) by {
            assert forall|k: int| 0 <= k < rest.len() implies valid_str(rest[k].0)
                && rest[k].1.hash.len() == 20 by {
                assert(rest[k] == e[k + 1]);
            }
        }
        lemma_sp_files_rest_of_enc(w, i + 1 + el, rest, acc.push(x));
        assert(acc.push(x) + rest =~= acc + e);
    }
}

/// Parsing a written snapshot object at its place in a larger byte string
/// gives the entry list back, in order.
pub proof fn lemma_sp_files_of_enc(w: Seq<u8>, i: int, e: Seq<(Seq<u8>, FileV)>)
    requires
        valid_entries(e),
        match_at(w, i, enc_files(e)),
    ensures
        sp_files(w, i) == Some((e, i + enc_files(e).len())),
{
    let l = enc_files(e).len() as int;
    if e.len() == 0 {
        assert(w[i] == 123) by {
            assert(w.subrange(i, i + l)[0] == enc_files(e)[0]);
        }
        assert(w[i + 1] == 125) by {
            assert(w.subrange(i, i + l)[1] == enc_files(e)[1]);
        }
    } else {
        let x = e[0];
        let el = enc_entry(x.0, x.1).len() as int;
        let rest = e.skip(1);
        let rl = enc_files_rest(rest).len() as int;
        assert(enc_files(e) == ((seq![123u8] + enc_entry(x.0, x.1)) + enc_files_rest(rest))
            + seq![125u8]);
        lemma_split2(w, i, (seq![123u8] + enc_entry(x.0, x.1)) + enc_files_rest(rest), seq![125u8]);
        lemma_split2(w, i, seq![123u8] + enc_entry(x.0, x.1), enc_files_rest(rest));
        lemma_split2(w, i, seq![123u8], enc_entry(x.0, x.1));
        lemma_match_byte(w, i, 123);
        lemma_match_byte(w, i + 1 + el + rl, 125);
        assert(valid_str(x.0) && x.1.hash.len() == 20);
        lemma_sp_entry_of_enc(w, i + 1, x.0, x.1);
        // the first member starts with a quote, so the empty branch is not
        // taken
        assert(w[i + 1] == 34) by {
            assert(w.subrange(i + 1, i + 1 + el)[0] == enc_entry(x.0, x.1)[0]);
            assert(enc_entry(x.0, x.1)[0] == enc_str(x.0)[0]);
        }
        assert(valid_entries(rest)) by {
            assert forall|k: int| 0 <= k < rest.len() implies valid_str(rest[k].0)
                && rest[k].1.hash.len() == 20 by {
                assert(rest[k] == e[k + 1]);
            }
        }
        lemma_sp_files_rest_of_enc(w, i + 1 + el, rest, seq![x]);
        assert(seq![x] + rest =~= e);
    }
}

/// Why a byte string does not load as a snapshot.
#[derive(Debug, Clone, Copy, PartialEq, Eq, Structural)]
pub enum JsonError {
    /// The bytes are not exactly one well-formed snapshot object.
    Malformed,
    /// A path occurs twice.
    DuplicateKey,
}

fn parse_entry(s: &Vec<u8>, i: usize) -> (r: Option<((Vec<u8>, File), usize)>)
    requires
        i <= s@.len(),
    ensures
        match r {
            Some(t) => sp_entry(s@, i as int) == Some(((t.0.0@, t.0.1@), t.1 as int)) && i < t.1
                <= s@.len(),
            None => sp_entry(s@, i as int) is None,
        },
{
    let (p, j) = match parse_str(s, i) {
        Some(t) => t,
        None => {
            return None;
        },
    };
    if j >= s.len() || s[j] != 58 {
        return None;
    }
    let (f, k) = match parse_file(s, j + 1) {
        Some(t) => t,
        None => {
            return None;
        },
    };
    Some(((p, f), k))
}

/// Read a snapshot object at `i`.
pub fn parse_files(s: &Vec<u8>, i: usize) -> (r: Option<(Vec<(Vec<u8>, File)>, usize)>)
    requires
        i <= s@.len(),
    ensures
        match r {
            Some(t) => sp_files(s@, i as int) == Some((kv_of(t.0@), t.1 as int)) && i < t.1
                <= s@.len(),
            None => sp_files(s@, i as int) is None,
        },
{
    if i >= s.len() || s[i] != 123 {
        return None;
    }
    if i + 1 < s.len() && s[i + 1] == 125 {
        let out: Vec<(Vec<u8>, File)> = Vec::new();
        proof {
            assert(kv_of(out@) =~= Seq::<(Seq<u8>, FileV)>::empty());
        }
        return Some((out, i + 2));
    }
    let (first, j0) = match parse_entry(s, i + 1) {
        Some(t) => t,
        None => {
            return None;
        },
    };
    let mut acc: Vec<(Vec<u8>, File)> = Vec::new();
    let ghost first_kv = (first.0@, first.1@);
    acc.push(first);
    let mut cur: usize = j0;
    proof {
        assert(kv_of(acc@) =~= seq![first_kv]);
    }
    loop
        invariant
            i + 1 < cur <= s@.len(),
            sp_files(s@, i as int) == sp_files_rest(s@, cur as int, kv_of(acc@)),
        decreases s@.len() - cur,
    {
        if cur >= s.len() {
            return None;
        }
        let b = s[cur];
        if b == 125 {
            return Some((acc, cur + 1));
        } else if b == 44 {
            match parse_entry(s, cur + 1) {
                Some((en, j)) => {
                    let ghost en_kv = (en.0@, en.1@);
                    let ghost pre = kv_of(acc@);
                    acc.push(en);
                    proof {
                        assert(kv_of(acc@) =~= pre.push(en_kv));
                    }
                    cur = j;
                },
                None => {
                    return None;
                },
            }
        } else {
            return None;
        }
    }
}

impl Files {
    /// The snapshot as its canonical JSON object, one member per entry in
    /// stored order.
    pub fn to_vec(&self) -> (r: Vec<u8>)
        ensures
            r@ == enc_files(self.kv()),
    {
        let mut out: Vec<u8> = Vec::new();
        out.push(123);
        let n = self.entries.len();
        if n == 0 {
            out.push(125);
            proof {
                assert(out@ =~= enc_files(self.kv()));
            }
            return out;
        }
        emit_str(&mut out, &self.entries[0].0);
        out.push(58);
        emit_file(&mut out, &self.entries[0].1);
        proof {
            assert(out@ =~= seq![123u8] + enc_entry(self.kv()[0].0, self.kv()[0].1));
        }
        let mut idx: usize = 1;
        while idx < n
            invariant
                1 <= idx <= n,
                n == self.entries@.len(),
                out@ == seq![123u8] + enc_entry(self.kv()[0].0, self.kv()[0].1) + enc_files_rest(
                    self.kv().subrange(1, idx as int),
                ),
            decreases n - idx,
        {
            out.push(44);
            emit_str(&mut out, &self.entries[idx].0);
            out.push(58);
            emit_file(&mut out, &self.entries[idx].1);
            proof {
                let kv = self.kv();
                lemma_enc_files_rest_push(kv.subrange(1, idx as int), kv[idx as int]);
                assert(kv.subrange(1, idx + 1) =~= kv.subrange(1, idx as int).push(kv[idx as int]));
                assert(out@ =~= seq![123u8] + enc_entry(kv[0].0, kv[0].1) + enc_files_rest(
                    kv.subrange(1, idx + 1),
                ));
            }
            idx += 1;
        }
        out.push(125);
        proof {
            assert(self.kv().subrange(1, n as int) =~= self.kv().skip(1));
            assert(out@ =~= enc_files(self.kv()));
        }
        out
    }

    /// Load a snapshot from its JSON text.
    pub fn from_str(data: &String) -> (r: Result<Files, JsonError>)
        ensures
            match r {
                Ok(f) => {
                    &&& sp_files(vstd::utf8::encode_utf8(data@), 0) == Some(
                        (f.kv(), vstd::utf8::encode_utf8(data@).len() as int),
                    )
                    &&& f.wf()
                },
                Err(JsonError::Malformed) => match sp_files(vstd::utf8::encode_utf8(data@), 0) {
                    Some(t) => t.1 != vstd::utf8::encode_utf8(data@).len(),
                    None => true,
                },
                Err(JsonError::DuplicateKey) => match sp_files(
                    vstd::utf8::encode_utf8(data@),
                    0,
                ) {
                    Some(t) => t.1 == vstd::utf8::encode_utf8(data@).len() && !unique_keys(t.0),
                    None => false,
                },
            },
    {
        let bytes = vstd::string::StrSliceExecFns::as_bytes_vec(data.as_str());
        Files::from_vec(&bytes)
    }

    /// Load a snapshot from its JSON object. The whole byte string must be
    /// one well-formed object and no path may occur twice.
    pub fn from_vec(data: &Vec<u8>) -> (r: Result<Files, JsonError>)
        ensures
            match r {
                Ok(f) => {
                    &&& sp_files(data@, 0) == Some((f.kv(), data@.len() as int))
                    &&& f.wf()
                },
                Err(JsonError::Malformed) => match sp_files(data@, 0) {
                    Some(t) => t.1 != data@.len(),
                    None => true,
                },
                Err(JsonError::DuplicateKey) => match sp_files(data@, 0) {
                    Some(t) => t.1 == data@.len() && !unique_keys(t.0),
                    None => false,
                },
            },
    {
        let (entries, j) = match parse_files(data, 0) {
            Some(t) => t,
            None => {
                return Err(JsonError::Malformed);
            },
        };
        if j != data.len() {
            return Err(JsonError::Malformed);
        }
        files_from_entries(entries)
    }
}

/// Turn a parsed entry list into a snapshot, refusing a repeated path.
pub fn files_from_entries(entries: Vec<(Vec<u8>, File)>) -> (r: Result<Files, JsonError>)
    ensures
        match r {
            Ok(f) => f.kv() == kv_of(entries@) && f.wf(),
            Err(JsonError::DuplicateKey) => !unique_keys(kv_of(entries@)),
            Err(JsonError::Malformed) => false,
        },
{
    let ghost parsed = kv_of(entries@);
    let mut out = Files::empty();
    let n = entries.len();
    let mut idx: usize = 0;
    while idx < n
        invariant
            idx <= n,
            n == entries@.len(),
            parsed == kv_of(entries@),
            out.wf(),
            out.kv() == parsed.take(idx as int),
        decreases n - idx,
    {
        let path = clone_bytes(&entries[idx].0);
        let file = entries[idx].1;
        if out.contains_key(&path) {
            proof {
                lemma_map_of_contains(out.kv(), path@);
                let i0 = choose|i0: int| 0 <= i0 < out.kv().len() && out.kv()[i0].0 == path@;
                assert(parsed[i0].0 == parsed[idx as int].0);
                assert(!unique_keys(parsed));
            }
            return Err(JsonError::DuplicateKey);
        }
        out.insert(path, file);
        proof {
            assert(out.kv() =~= parsed.take(idx + 1));
        }
        idx += 1;
    }
    proof {
        assert(parsed.take(n as int) =~= parsed);
    }
    Ok(out)
}

/// Snapshot round-trip: a stored snapshot—every entry forced to
/// `Unchanged`—reads back from its own encoding as the same entry list,
/// with its keys still pairwise distinct.
pub proof fn lemma_snapshot_round_trip(e: Seq<(Seq<u8>, FileV)>)
    requires
        valid_entries(e),
        unique_keys(e),
    ensures
        sp_files(enc_files(stored_form(e)), 0) == Some(
            (stored_form(e), enc_files(stored_form(e)).len() as int),
        ),
        unique_keys(stored_form(e)),
{
    let st = stored_form(e);
    assert(valid_entries(st)) by {
        assert forall|k: int| 0 <= k < st.len() implies valid_str(st[k].0) && st[k].1.hash.len()
            == 20 by {
            assert(e[k].0 == st[k].0 && e[k].1.hash == st[k].1.hash);
        }
    }
    assert(unique_keys(st)) by {
        assert forall|a: int, b: int| 0 <= a < b < st.len() implies st[a].0 != st[b].0 by {
            assert(e[a].0 != e[b].0);
        }
    }
    let w = enc_files(st);
    assert(w.subrange(0, w.len() as int) =~= w);
    lemma_sp_files_of_enc(w, 0, st);
}

} // verus!
