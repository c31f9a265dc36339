use vstd::prelude::*;

use crate::file::FileV;
use crate::file::hash_eq;
use crate::files::Files;
use crate::files::clone_bytes;
use crate::files::lemma_map_of_contains;
use crate::files::lemma_map_of_index;
use crate::state::State;

verus! {

/// Both entries carry a tag in {Created, Edited}.
pub open spec fn both_edits(s: FileV, c: FileV) -> bool {
    &&& (s.state == State::Created || s.state == State::Edited)
    &&& (c.state == State::Created || c.state == State::Edited)
}

/// Path `p` belongs in the server's work list: the client changed it and
/// either the server kept it untouched, does not hold it at all, or both
/// sides edited it, the contents differ, and the client's copy is newer.
pub open spec fn server_wants(s: Map<Seq<u8>, FileV>, c: Map<Seq<u8>, FileV>, p: Seq<u8>) -> bool {
    &&& c.contains_key(p)
    &&& c[p].state != State::Unchanged
    &&& (s.contains_key(p) ==> {
        ||| s[p].state == State::Unchanged
        ||| (both_edits(s[p], c[p]) && s[p].hash != c[p].hash && s[p].mtime < c[p].mtime)
    })
}

/// Path `p` belongs in the client's work list; on equal modification times
/// of differing contents the server's copy wins.
pub open spec fn client_wants(s: Map<Seq<u8>, FileV>, c: Map<Seq<u8>, FileV>, p: Seq<u8>) -> bool {
    &&& s.contains_key(p)
    &&& s[p].state != State::Unchanged
    &&& (c.contains_key(p) ==> {
        ||| c[p].state == State::Unchanged
        ||| (both_edits(s[p], c[p]) && s[p].hash != c[p].hash && c[p].mtime <= s[p].mtime)
    })
}

/// The work list the server must fetch; each entry is the client's copy.
pub open spec fn server_todo_spec(s: Map<Seq<u8>, FileV>, c: Map<Seq<u8>, FileV>) -> Map<
    Seq<u8>,
    FileV,
> {
    Map::new(|p: Seq<u8>| server_wants(s, c, p), |p: Seq<u8>| c[p])
}

/// The work list the client must fetch; each entry is the server's copy.
pub open spec fn client_todo_spec(s: Map<Seq<u8>, FileV>, c: Map<Seq<u8>, FileV>) -> Map<
    Seq<u8>,
    FileV,
> {
    Map::new(|p: Seq<u8>| client_wants(s, c, p), |p: Seq<u8>| s[p])
}

/// Both sides changed `p` and at least one deleted it: the reconciliation
/// table leaves these pairs open, so they are surfaced as an error.
pub open spec fn delete_conflict(s: Map<Seq<u8>, FileV>, c: Map<Seq<u8>, FileV>, p: Seq<u8>) -> bool {
    &&& s.contains_key(p)
    &&& c.contains_key(p)
    &&& s[p].state != State::Unchanged
    &&& c[p].state != State::Unchanged
    &&& (s[p].state == State::Deleted || c[p].state == State::Deleted)
}

/// The reconciler is total on this pair of snapshots.
pub open spec fn diff_defined(s: Map<Seq<u8>, FileV>, c: Map<Seq<u8>, FileV>) -> bool {
    forall|p: Seq<u8>| !delete_conflict(s, c, p)
}

#[derive(Debug, Clone, Copy, PartialEq, Eq, Structural)]
pub enum DiffError {
    /// A path was changed on both sides and deleted on at least one; the
    /// tag-pair policy leaves that cell open.
    DeleteConflict,
}

/// Some entry of the first `n` listed pairs carries the key `p`.
spec fn has_key_upto(s: Seq<(Seq<u8>, FileV)>, n: int, p: Seq<u8>) -> bool {
    exists|j: int| 0 <= j < n && s[j].0 == p
}

impl Files {
    /// Compute `(server_todo, client_todo)` from the server's and the
    /// client's annotated snapshots, following the tag-pair policy table.
    pub fn diff(server_data: Self, client_data: Self) -> (r: Result<(Self, Self), DiffError>)
        requires
            server_data.wf(),
            client_data.wf(),
        ensures
            match r {
                Ok(t) => {
                    &&& diff_defined(server_data@, client_data@)
                    &&& t.0.wf()
                    &&& t.1.wf()
                    &&& t.0@ == server_todo_spec(server_data@, client_data@)
                    &&& t.1@ == client_todo_spec(server_data@, client_data@)
                },
                Err(e) => {
                    &&& e == DiffError::DeleteConflict
                    &&& !diff_defined(server_data@, client_data@)
                },
            },
    {
        let ghost sdv = server_data@;
        let ghost cdv = client_data@;
        let mut server_todo = Files::empty();
        let mut client_todo = Files::empty();

        let n = server_data.entries.len();
        let mut i: usize = 0;
        while i < n
            invariant
                server_data.wf(),
                client_data.wf(),
                sdv == server_data@,
                cdv == client_data@,
                n == server_data.entries@.len(),
                i <= n,
                server_todo.wf(),
                client_todo.wf(),
                forall|p: Seq<u8>| #[trigger]
                    server_todo@.contains_key(p) <==> server_wants(sdv, cdv, p) && has_key_upto(
                        server_data.kv(),
                        i as int,
                        p,
                    ),
                forall|p: Seq<u8>| #[trigger]
                    client_todo@.contains_key(p) <==> client_wants(sdv, cdv, p) && has_key_upto(
                        server_data.kv(),
                        i as int,
                        p,
                    ),
                forall|p: Seq<u8>|
                    server_todo@.contains_key(p) ==> #[trigger] server_todo@[p] == cdv[p],
                forall|p: Seq<u8>|
                    client_todo@.contains_key(p) ==> #[trigger] client_todo@[p] == sdv[p],
                forall|j: int|
                    0 <= j < i ==> !delete_conflict(sdv, cdv, #[trigger] server_data.kv()[j].0),
            decreases n - i,
        {
            let path = &server_data.entries[i].0;
            let sf = server_data.entries[i].1;
            proof {
                lemma_map_of_index(server_data.kv(), i as int);
                assert(sdv[path@] == sf@);
            }
            match client_data.get(path) {
                Some(cf_ref) => {
                    let cf = *cf_ref;
                    if sf.state == State::Unchanged && cf.state == State::Unchanged {
                        // nothing to do on either side
                    } else if sf.state == State::Unchanged {
                        server_todo.insert(clone_bytes(path), cf);
                    } else if cf.state == State::Unchanged {
                        client_todo.insert(clone_bytes(path), sf);
                    } else if sf.state == State::Deleted || cf.state == State::Deleted {
                        proof {
                            assert(delete_conflict(sdv, cdv, path@));
                        }
                        return Err(DiffError::DeleteConflict);
                    } else {
                        if !hash_eq(&sf.hash, &cf.hash) {
                            if sf.mtime < cf.mtime {
                                server_todo.insert(clone_bytes(path), cf);
                            } else {
                                client_todo.insert(clone_bytes(path), sf);
                            }
                        }
                    }
                },
                None => {
                    if !(sf.state == State::Unchanged) {
                        client_todo.insert(clone_bytes(path), sf);
                    }
                },
            }
            proof {
                assert forall|p: Seq<u8>|
                    has_key_upto(server_data.kv(), i + 1, p) <==> has_key_upto(
                        server_data.kv(),
                        i as int,
                        p,
                    ) || p == server_data.kv()[i as int].0 by {}
            }
            i += 1;
        }

        // entries the client alone holds
        let m = client_data.entries.len();
        let mut k: usize = 0;
        while k < m
            invariant
                server_data.wf(),
                client_data.wf(),
                sdv == server_data@,
                cdv == client_data@,
                m == client_data.entries@.len(),
                k <= m,
                server_todo.wf(),
                client_todo.wf(),
                forall|p: Seq<u8>| #[trigger]
                    server_todo@.contains_key(p) <==> server_wants(sdv, cdv, p) && (has_key_upto(
                        server_data.kv(),
                        server_data.kv().len() as int,
                        p,
                    ) || has_key_upto(client_data.kv(), k as int, p)),
                forall|p: Seq<u8>| #[trigger]
                    client_todo@.contains_key(p) <==> client_wants(sdv, cdv, p) && has_key_upto(
                        server_data.kv(),
                        server_data.kv().len() as int,
                        p,
                    ),
                forall|p: Seq<u8>|
                    server_todo@.contains_key(p) ==> #[trigger] server_todo@[p] == cdv[p],
                forall|p: Seq<u8>|
                    client_todo@.contains_key(p) ==> #[trigger] client_todo@[p] == sdv[p],
                forall|j: int|
                    0 <= j < server_data.kv().len() ==> !delete_conflict(
                        sdv,
                        cdv,
                        #[trigger] server_data.kv()[j].0,
                    ),
            decreases m - k,
        {
            let path = &client_data.entries[k].0;
            let cf = client_data.entries[k].1;
            proof {
                lemma_map_of_index(client_data.kv(), k as int);
                assert(cdv[path@] == cf@);
            }
            proof {
                lemma_map_of_contains(server_data.kv(), path@);
            }
            if !server_data.contains_key(path) {
                if !(cf.state == State::Unchanged) {
                    server_todo.insert(clone_bytes(path), cf);
                }
            }
            proof {
                assert forall|p: Seq<u8>|
                    has_key_upto(client_data.kv(), k + 1, p) <==> has_key_upto(
                        client_data.kv(),
                        k as int,
                        p,
                    ) || p == client_data.kv()[k as int].0 by {}
            }
            k += 1;
        }

        proof {
            assert forall|p: Seq<u8>| !delete_conflict(sdv, cdv, p) by {
                if sdv.contains_key(p) {
                    lemma_map_of_contains(server_data.kv(), p);
                }
            }
            assert(server_todo@ =~= server_todo_spec(sdv, cdv)) by {
                assert forall|p: Seq<u8>|
                    server_todo@.contains_key(p) <==> server_todo_spec(
                        sdv,
                        cdv,
                    ).contains_key(p) by {
                    if server_wants(sdv, cdv, p) {
                        lemma_map_of_contains(client_data.kv(), p);
                    }
                }
            }
            assert(client_todo@ =~= client_todo_spec(sdv, cdv)) by {
                assert forall|p: Seq<u8>|
                    client_todo@.contains_key(p) <==> client_todo_spec(
                        sdv,
                        cdv,
                    ).contains_key(p) by {
                    if client_wants(sdv, cdv, p) {
                        lemma_map_of_contains(server_data.kv(), p);
                    }
                }
            }
        }
        Ok((server_todo, client_todo))
    }
}

/// For every path, at most one of the two work lists contains it: the
/// reconciler never asks both sides to fetch the same file.
pub proof fn lemma_reconcile_exclusive(s: Map<Seq<u8>, FileV>, c: Map<Seq<u8>, FileV>, p: Seq<u8>)
    ensures
        !(server_todo_spec(s, c).contains_key(p) && client_todo_spec(s, c).contains_key(p)),
{
}

/// The work lists are a function of the two snapshot maps alone: runs on
/// equal snapshots yield equal pairs, however the entries are ordered.
pub proof fn lemma_reconcile_deterministic(
    s1: Map<Seq<u8>, FileV>,
    c1: Map<Seq<u8>, FileV>,
    s2: Map<Seq<u8>, FileV>,
    c2: Map<Seq<u8>, FileV>,
)
    requires
        s1 == s2,
        c1 == c2,
    ensures
        server_todo_spec(s1, c1) == server_todo_spec(s2, c2),
        client_todo_spec(s1, c1) == client_todo_spec(s2, c2),
{
}

/// When neither snapshot reports a change, both work lists are empty.
pub proof fn lemma_reconcile_converged(s: Map<Seq<u8>, FileV>, c: Map<Seq<u8>, FileV>)
    requires
        forall|p: Seq<u8>| s.contains_key(p) ==> (#[trigger] s[p]).state == State::Unchanged,
        forall|p: Seq<u8>| c.contains_key(p) ==> (#[trigger] c[p]).state == State::Unchanged,
    ensures
        server_todo_spec(s, c) =~= Map::<Seq<u8>, FileV>::empty(),
        client_todo_spec(s, c) =~= Map::<Seq<u8>, FileV>::empty(),
{
}

} // verus!
