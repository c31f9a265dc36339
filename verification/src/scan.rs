use vstd::prelude::*;

use crate::diff::client_todo_spec;
use crate::diff::lemma_reconcile_converged;
use crate::diff::server_todo_spec;
use crate::file::File;
use crate::file::FileV;
use crate::files::Files;
use crate::files::clone_bytes;
use crate::files::lemma_map_of_contains;
use crate::files::lemma_map_of_index;
use crate::state::State;

verus! {

/// The annotated snapshot a scan produces: every stored path and every
/// on-disk path, each entry tagged by comparing the two sides. A stored
/// entry keeps its digest and size; only its tag is reassigned. A path
/// seen only on disk enters with the freshly read metadata, tagged
/// `Created`.
pub open spec fn scan_spec(stored: Map<Seq<u8>, FileV>, disk: Map<Seq<u8>, FileV>) -> Map<
    Seq<u8>,
    FileV,
> {
    Map::new(
        |p: Seq<u8>| stored.contains_key(p) || disk.contains_key(p),
        |p: Seq<u8>|
            if stored.contains_key(p) {
                if disk.contains_key(p) {
                    FileV {
                        state: if stored[p].mtime < disk[p].mtime {
                            State::Edited
                        } else {
                            State::Unchanged
                        },
                        ..stored[p]
                    }
                } else {
                    FileV { state: State::Deleted, ..stored[p] }
                }
            } else {
                FileV { state: State::Created, ..disk[p] }
            },
    )
}

/// Some entry of the first `n` listed pairs carries the key `p`.
spec fn has_key_upto(s: Seq<(Seq<u8>, FileV)>, n: int, p: Seq<u8>) -> bool {
    exists|j: int| 0 <= j < n && s[j].0 == p
}

/// Classify every file against the stored snapshot. `stored_state` is the
/// snapshot loaded from the state file; `disk` lists every regular file
/// under the storage directory with its freshly read metadata (its tag is
/// ignored).
pub fn get_current_state(stored_state: Files, disk: &Files) -> (r: Files)
    requires
        stored_state.wf(),
        disk.wf(),
    ensures
        r.wf(),
        r@ == scan_spec(stored_state@, disk@),
{
    let ghost sv = stored_state@;
    let ghost dv = disk@;
    let mut out = Files::empty();

    let n = stored_state.entries.len();
    let mut i: usize = 0;
    while i < n
        invariant
            stored_state.wf(),
            disk.wf(),
            sv == stored_state@,
            dv == disk@,
            n == stored_state.entries@.len(),
            i <= n,
            out.wf(),
            forall|p: Seq<u8>| #[trigger]
                out@.contains_key(p) <==> has_key_upto(stored_state.kv(), i as int, p),
            forall|p: Seq<u8>|
                out@.contains_key(p) ==> #[trigger] out@[p] == scan_spec(sv, dv)[p],
        decreases n - i,
    {
        let path = &stored_state.entries[i].0;
        let mut file = stored_state.entries[i].1;
        proof {
            lemma_map_of_index(stored_state.kv(), i as int);
            assert(sv[path@] == file@);
        }
        match disk.get(path) {
            Some(d) => {
                if file.mtime < d.mtime {
                    file.set_state(State::Edited);
                } else {
                    file.set_state(State::Unchanged);
                }
            },
            None => {
                file.set_state(State::Deleted);
            },
        }
        out.insert(clone_bytes(path), file);
        proof {
            assert forall|p: Seq<u8>|
                has_key_upto(stored_state.kv(), i + 1, p) <==> has_key_upto(
                    stored_state.kv(),
                    i as int,
                    p,
                ) || p == stored_state.kv()[i as int].0 by {}
        }
        i += 1;
    }

    let m = disk.entries.len();
    let mut k: usize = 0;
    while k < m
        invariant
            stored_state.wf(),
            disk.wf(),
            sv == stored_state@,
            dv == disk@,
            m == disk.entries@.len(),
            k <= m,
            out.wf(),
            forall|p: Seq<u8>| #[trigger]
                out@.contains_key(p) <==> has_key_upto(
                    stored_state.kv(),
                    stored_state.kv().len() as int,
                    p,
                ) || has_key_upto(disk.kv(), k as int, p),
            forall|p: Seq<u8>|
                out@.contains_key(p) ==> #[trigger] out@[p] == scan_spec(sv, dv)[p],
        decreases m - k,
    {
        let path = &disk.entries[k].0;
        let mut file = disk.entries[k].1;
        proof {
            lemma_map_of_index(disk.kv(), k as int);
            assert(dv[path@] == file@);
            lemma_map_of_contains(stored_state.kv(), path@);
        }
        if !stored_state.contains_key(path) {
            file.set_state(State::Created);
            out.insert(clone_bytes(path), file);
        }
        proof {
            assert forall|p: Seq<u8>|
                has_key_upto(disk.kv(), k + 1, p) <==> has_key_upto(disk.kv(), k as int, p) || p
                    == disk.kv()[k as int].0 by {}
        }
        k += 1;
    }

    proof {
        assert(out@ =~= scan_spec(sv, dv)) by {
            assert forall|p: Seq<u8>|
                out@.contains_key(p) <==> scan_spec(sv, dv).contains_key(p) by {
                lemma_map_of_contains(stored_state.kv(), p);
                lemma_map_of_contains(disk.kv(), p);
            }
        }
    }
    out
}

/// The scan covers every stored path and every on-disk path, and no other.
pub proof fn lemma_scan_total(stored: Map<Seq<u8>, FileV>, disk: Map<Seq<u8>, FileV>)
    ensures
        scan_spec(stored, disk).dom() =~= stored.dom().union(disk.dom()),
        forall|p: Seq<u8>|
            stored.contains_key(p) ==> scan_spec(stored, disk).contains_key(p),
{
}

/// How each path's tag is decided: `Deleted` exactly for stored paths gone
/// from disk, `Created` exactly for disk paths the snapshot lacks, `Edited`
/// exactly for common paths whose stored time is older than the disk time,
/// `Unchanged` for the remaining common paths.
pub proof fn lemma_scan_classification(
    stored: Map<Seq<u8>, FileV>,
    disk: Map<Seq<u8>, FileV>,
    p: Seq<u8>,
)
    requires
        scan_spec(stored, disk).contains_key(p),
    ensures
        scan_spec(stored, disk)[p].state == State::Deleted <==> stored.contains_key(p)
            && !disk.contains_key(p),
        scan_spec(stored, disk)[p].state == State::Created <==> !stored.contains_key(p)
            && disk.contains_key(p),
        scan_spec(stored, disk)[p].state == State::Edited <==> stored.contains_key(p)
            && disk.contains_key(p) && stored[p].mtime < disk[p].mtime,
        scan_spec(stored, disk)[p].state == State::Unchanged <==> stored.contains_key(p)
            && disk.contains_key(p) && stored[p].mtime >= disk[p].mtime,
{
}

/// After a session in which both sides persisted matching state, a fresh
/// scan on each side reports every path `Unchanged`, and reconciling the
/// two scans yields a pair of empty work lists.
pub proof fn lemma_session_convergence(
    server_stored: Map<Seq<u8>, FileV>,
    server_disk: Map<Seq<u8>, FileV>,
    client_stored: Map<Seq<u8>, FileV>,
    client_disk: Map<Seq<u8>, FileV>,
)
    requires
        server_stored.dom() == server_disk.dom(),
        client_stored.dom() == client_disk.dom(),
        forall|p: Seq<u8>|
            server_stored.contains_key(p) ==> (#[trigger] server_stored[p]).mtime
                >= server_disk[p].mtime,
        forall|p: Seq<u8>|
            client_stored.contains_key(p) ==> (#[trigger] client_stored[p]).mtime
                >= client_disk[p].mtime,
    ensures
        server_todo_spec(
            scan_spec(server_stored, server_disk),
            scan_spec(client_stored, client_disk),
        ) =~= Map::<Seq<u8>, FileV>::empty(),
        client_todo_spec(
            scan_spec(server_stored, server_disk),
            scan_spec(client_stored, client_disk),
        ) =~= Map::<Seq<u8>, FileV>::empty(),
{
    let s = scan_spec(server_stored, server_disk);
    let c = scan_spec(client_stored, client_disk);
    assert forall|p: Seq<u8>| s.contains_key(p) implies (#[trigger] s[p]).state
        == State::Unchanged by {
        assert(server_disk.dom().contains(p));
    }
    assert forall|p: Seq<u8>| c.contains_key(p) implies (#[trigger] c[p]).state
        == State::Unchanged by {
        assert(client_disk.dom().contains(p));
    }
    lemma_reconcile_converged(s, c);
}

} // verus!
