//! The clone merge state machine.
//!
//! One window item is consumed per step, against one partition's fingerprint
//! store. A fingerprint hit opens a clone (pairing the stored prior window
//! with the current one) or keeps the active clone growing; a miss emits the
//! active clone and stores the current window; the terminal step emits
//! whatever clone is still active. [`spec_detect`] states the whole run as a
//! function of the inputs, so detection is deterministic by construction.

use vstd::prelude::*;

use crate::hashing::{build_hash_str, spec_hash_concat};
use crate::partition::{ext_of, extension_of};
use crate::tokenmap::{
    spec_enlarge, spec_last_pos, spec_window_item, CloneLoc, CloneLocV, ClonePair, ClonePairV,
    Token, TokenItemV, TokenMap, TokenMapV,
};
use crate::tokenstore::TokenStore;

verus! {

/// The views of a sequence of clone records.
pub open spec fn clones_view(s: Seq<ClonePair>) -> Seq<ClonePairV> {
    s.map_values(|c: ClonePair| c@)
}

/// The view of the optional active clone.
pub open spec fn spec_active(oc: Option<ClonePair>) -> Option<ClonePairV> {
    match oc {
        Some(c) => Some(c@),
        None => None,
    }
}

/// Every stored window item carries an end span (window items of a non-empty
/// file always do, and only such items are ever stored).
pub open spec fn store_items_end_some(m: Map<Seq<char>, TokenItemV>) -> bool {
    forall|k: Seq<char>| m.contains_key(k) ==> (#[trigger] m[k]).value.end is Some
}

/// The clone opened on a fingerprint hit: the stored prior occurrence becomes
/// `duplication_a`, the current window `duplication_b`.
pub open spec fn spec_open_clone(prior: TokenItemV, item: TokenItemV) -> ClonePairV {
    ClonePairV {
        duplication_a: CloneLocV {
            source_id: prior.value.source_id,
            fragement: None,
            lo: match prior.value.start {
                Some(sp) => sp.lo,
                None => 0,
            },
            hi: spec_end_hi(prior),
        },
        duplication_b: CloneLocV {
            source_id: item.value.source_id,
            fragement: None,
            lo: match item.value.start {
                Some(sp) => sp.lo,
                None => 0,
            },
            hi: spec_end_hi(item),
        },
    }
}

/// The end offset a window item reports, `0` when it has none.
pub open spec fn spec_end_hi(item: TokenItemV) -> u32 {
    match item.value.end {
        Some(sp) => sp.hi,
        None => 0,
    }
}

/// One full detection run over a non-empty file's windows, from start
/// position `pos` with the given store and active clone: the store afterwards
/// and the clones emitted, in order.
///
/// On a hit the active clone (opened now if there was none) survives the
/// step; short of the terminal step it is then extended to the stored prior
/// occurrence's end offset and the current window's end offset. On a miss the
/// active clone, if any, is emitted and the current window is stored under
/// its fingerprint. The terminal step emits the clone that survives it.
pub open spec fn spec_detect(
    tm: TokenMapV,
    pos: int,
    store: Map<Seq<char>, TokenItemV>,
    active: Option<ClonePairV>,
) -> (Map<Seq<char>, TokenItemV>, Seq<ClonePairV>)
    decreases spec_last_pos(tm) - pos,
{
    let item = spec_window_item(tm, pos);
    let done = pos >= spec_last_pos(tm);
    if store.contains_key(item.value.id) {
        let prior = store[item.value.id];
        let c = match active {
            None => spec_open_clone(prior, item),
            Some(c0) => c0,
        };
        if done {
            (store, seq![c])
        } else {
            spec_detect(
                tm,
                pos + 1,
                store,
                Some(spec_enlarge(c, spec_end_hi(prior), spec_end_hi(item))),
            )
        }
    } else {
        let emitted: Seq<ClonePairV> = match active {
            Some(c0) => seq![c0],
            None => seq![],
        };
        let store2 = store.insert(item.value.id, item);
        if done {
            (store2, emitted)
        } else {
            let r = spec_detect(tm, pos + 1, store2, None);
            (r.0, emitted + r.1)
        }
    }
}

/// Pushing one clone keeps any earlier prefix and appends the new view after
/// any prefix-skip.
proof fn lemma_push_skip_take(cl: Seq<ClonePair>, c: ClonePair, n: int)
    requires
        0 <= n <= cl.len(),
    ensures
        clones_view(cl.push(c)).skip(n) =~= clones_view(cl).skip(n).push(c@),
        cl.push(c).take(n) =~= cl.take(n),
{
    assert(clones_view(cl.push(c)) =~= clones_view(cl).push(c@));
    assert(clones_view(cl).push(c@).skip(n) =~= clones_view(cl).skip(n).push(c@));
}

/// Drive the windower over one file against one partition's store, merging
/// runs of consecutive fingerprint hits into growing clones and appending the
/// completed clones, exactly as [`spec_detect`] states from the windower's
/// current start position. A file with no tokens changes nothing.
pub fn detect(tokenmap: &mut TokenMap, store: &mut TokenStore, clones: &mut Vec<ClonePair>)
    requires
        old(tokenmap).tokens@.len() == 0 || old(tokenmap).wf(),
        old(store).wf(),
        store_items_end_some(old(store)@),
    ensures
        final(store).wf(),
        store_items_end_some(final(store)@),
        old(tokenmap).tokens@.len() == 0 ==> final(tokenmap)@ == old(tokenmap)@ && final(store)@
            == old(store)@ && final(clones)@ == old(clones)@,
        old(tokenmap).tokens@.len() > 0 ==> ({
            let r = spec_detect(old(tokenmap)@, old(tokenmap).position as int, old(store)@, None);
            &&& final(store)@ == r.0
            &&& clones_view(final(clones)@) == clones_view(old(clones)@) + r.1
            &&& final(tokenmap)@ == (TokenMapV {
                position: if (old(tokenmap).position as int) < spec_last_pos(old(tokenmap)@) {
                    spec_last_pos(old(tokenmap)@) as usize
                } else {
                    old(tokenmap).position
                },
                ..old(tokenmap)@
            })
        }),
{
    if tokenmap.size() == 0 {
        return;
    }
    let ghost tm0 = tokenmap@;
    let ghost pos0 = tokenmap.position as int;
    let ghost store0 = store@;
    let ghost clones0 = clones@;
    let ghost n0 = clones0.len() as int;
    let mut clone_state: Option<ClonePair> = None;
    let mut saved: Option<u32> = None;
    proof {
        assert(clones_view(clones@).skip(n0) =~= Seq::<ClonePairV>::empty());
        assert(clones@.take(n0) =~= clones0);
        assert(spec_detect(tm0, pos0, store0, None).1 =~= clones_view(clones@).skip(n0)
            + spec_detect(tm0, pos0, store0, None).1);
    }
    loop
        invariant_except_break
            tm0.tokens.len() > 0,
            n0 == clones0.len(),
            pos0 == tm0.position as int,
            tokenmap.wf(),
            tokenmap@ == (TokenMapV { position: tokenmap@.position, ..tm0 }),
            pos0 <= tokenmap@.position as int,
            pos0 < spec_last_pos(tm0) ==> tokenmap@.position as int <= spec_last_pos(tm0),
            pos0 >= spec_last_pos(tm0) ==> tokenmap@.position as int == pos0,
            store.wf(),
            store_items_end_some(store@),
            clones@.len() >= n0,
            clones@.take(n0) == clones0,
            spec_detect(tm0, pos0, store0, None).0 == spec_detect(
                tm0,
                tokenmap@.position as int,
                store@,
                spec_active(clone_state),
            ).0,
            spec_detect(tm0, pos0, store0, None).1 == clones_view(clones@).skip(n0) + spec_detect(
                tm0,
                tokenmap@.position as int,
                store@,
                spec_active(clone_state),
            ).1,
        ensures
            store.wf(),
            store_items_end_some(store@),
            n0 == clones0.len(),
            clones@.len() >= n0,
            clones@.take(n0) == clones0,
            spec_detect(tm0, pos0, store0, None).0 == store@,
            spec_detect(tm0, pos0, store0, None).1 == clones_view(clones@).skip(n0),
            tokenmap@ == (TokenMapV {
                position: if pos0 < spec_last_pos(tm0) {
                    spec_last_pos(tm0) as usize
                } else {
                    tm0.position
                },
                ..tm0
            }),
        decreases spec_last_pos(tm0) - tokenmap@.position,
    {
        let ghost p = tokenmap@.position as int;
        let ghost sm = store@;
        let ghost av = spec_active(clone_state);
        let ghost cl = clones@;
        let item = tokenmap.next();
        let ghost itemv = spec_window_item(tm0, p);
        proof {
            assert(item@ == itemv);
            assert(itemv.value.end is Some);
            assert(itemv.done == (p >= spec_last_pos(tm0)));
        }
        let done = item.done;
        let hi = match item.value.end {
            Some(sp) => sp.hi,
            None => 0,
        };
        let looked_up = store.get(&item.value.id);
        let ghost hit = sm.contains_key(itemv.value.id);
        match looked_up {
            Some(v) => {
                saved = Some(
                    match v.value.end {
                        Some(sp) => sp.hi,
                        None => 0,
                    },
                );
                match clone_state {
                    None => {
                        let duplication_a_lo = match v.value.start {
                            Some(sp) => sp.lo,
                            None => 0,
                        };
                        let duplication_a_hi = match v.value.end {
                            Some(sp) => sp.hi,
                            None => 0,
                        };
                        let duplication_b_lo = match item.value.start {
                            Some(sp) => sp.lo,
                            None => 0,
                        };
                        let duplication_b_hi = match item.value.end {
                            Some(sp) => sp.hi,
                            None => 0,
                        };
                        let duplication_a = CloneLoc::new(
                            v.value.source_id.clone(),
                            duplication_a_lo,
                            duplication_a_hi,
                        );
                        let duplication_b = CloneLoc::new(
                            item.value.source_id.clone(),
                            duplication_b_lo,
                            duplication_b_hi,
                        );
                        clone_state = Some(ClonePair { duplication_a, duplication_b });
                        proof {
                            assert(spec_active(clone_state) == Some(
                                spec_open_clone(sm[itemv.value.id], itemv),
                            ));
                        }
                    },
                    Some(_) => {},
                }
            },
            None => {
                let emitted = clone_state;
                clone_state = None;
                match emitted {
                    Some(c) => {
                        proof {
                            lemma_push_skip_take(clones@, c, n0);
                        }
                        clones.push(c);
                    },
                    None => {},
                }
                store.insert(item.value.id.clone(), item);
            },
        }
        let ghost c_spec = if av is None {
            spec_open_clone(sm[itemv.value.id], itemv)
        } else {
            av->0
        };
        proof {
            if hit {
                assert(store@ == sm);
                assert(clones@ == cl);
                assert(spec_active(clone_state) == Some(c_spec));
            } else {
                assert(store@ == sm.insert(itemv.value.id, itemv));
                assert(spec_active(clone_state) is None);
                if av is Some {
                    assert(clones_view(clones@).skip(n0) =~= clones_view(cl).skip(n0).push(av->0));
                    assert forall|i2: int| 0 <= i2 < n0 implies clones@.take(n0)[i2] == cl.take(
                        n0,
                    )[i2] by {
                        assert(clones@[i2] == cl[i2]);
                    }
                    assert(clones@.take(n0) =~= cl.take(n0));
                } else {
                    assert(clones@ == cl);
                }
            }
        }
        if done {
            let emitted = clone_state;
            clone_state = None;
            match emitted {
                Some(c) => {
                    proof {
                        lemma_push_skip_take(clones@, c, n0);
                    }
                    clones.push(c);
                },
                None => {},
            }
            proof {
                if hit {
                    assert(spec_detect(tm0, p, sm, av) == (sm, seq![c_spec]));
                    assert(clones_view(clones@).skip(n0) =~= clones_view(cl).skip(n0).push(c_spec));
                    assert(clones_view(cl).skip(n0) + seq![c_spec] =~= clones_view(cl).skip(
                        n0,
                    ).push(c_spec));
                    assert forall|i2: int| 0 <= i2 < n0 implies clones@.take(n0)[i2] == cl.take(
                        n0,
                    )[i2] by {
                        assert(clones@[i2] == cl[i2]);
                    }
                    assert(clones@.take(n0) =~= cl.take(n0));
                } else {
                    assert(spec_detect(tm0, p, sm, av) == (
                        sm.insert(itemv.value.id, itemv),
                        if av is Some {
                            seq![av->0]
                        } else {
                            Seq::<ClonePairV>::empty()
                        },
                    ));
                    if av is Some {
                        assert(clones_view(cl).skip(n0) + seq![av->0] =~= clones_view(cl).skip(
                            n0,
                        ).push(av->0));
                    } else {
                        assert(clones_view(cl).skip(n0) + Seq::<ClonePairV>::empty()
                            =~= clones_view(cl).skip(n0));
                    }
                }
                assert(spec_detect(tm0, pos0, store0, None).1 == clones_view(clones@).skip(n0));
                assert(p >= spec_last_pos(tm0));
                assert(tokenmap@.position as int == p);
                assert(tokenmap@.position as int == if pos0 < spec_last_pos(tm0) {
                    spec_last_pos(tm0)
                } else {
                    pos0
                });
                assert(tokenmap@ =~= (TokenMapV {
                    position: if pos0 < spec_last_pos(tm0) {
                        spec_last_pos(tm0) as usize
                    } else {
                        tm0.position
                    },
                    ..tm0
                }));
            }
            break;
        } else {
            clone_state = match clone_state {
                Some(mut c) => {
                    if saved.is_some() {
                        let saved_hi = match saved {
                            Some(s) => s,
                            None => 0,
                        };
                        c.enlarge(saved_hi, hi);
                    }
                    Some(c)
                },
                None => None,
            };
            proof {
                if hit {
                    assert(saved == Some(spec_end_hi(sm[itemv.value.id])));
                    assert(hi == spec_end_hi(itemv));
                    assert(spec_active(clone_state) == Some(
                        spec_enlarge(c_spec, spec_end_hi(sm[itemv.value.id]), spec_end_hi(itemv)),
                    ));
                    assert(spec_detect(tm0, p, sm, av) == spec_detect(
                        tm0,
                        p + 1,
                        store@,
                        spec_active(clone_state),
                    ));
                } else {
                    let e: Seq<ClonePairV> = if av is Some {
                        seq![av->0]
                    } else {
                        Seq::<ClonePairV>::empty()
                    };
                    let r = spec_detect(tm0, p + 1, store@, None);
                    assert(spec_detect(tm0, p, sm, av) == (r.0, e + r.1));
                    assert(clones_view(clones@).skip(n0) =~= clones_view(cl).skip(n0) + e);
                    assert(clones_view(cl).skip(n0) + (e + r.1) =~= (clones_view(cl).skip(n0) + e)
                        + r.1);
                }
            }
        }
    }
}

/// What a detection run is built from carries over to what it leaves behind:
/// when every stored item and every window item satisfies `p`, clones opened
/// from two such items satisfy `q`, and enlarging preserves `q`, then every
/// item the run stores satisfies `p` and every clone it emits satisfies `q`.
pub proof fn lemma_spec_detect_frame(
    tm: TokenMapV,
    pos: int,
    store: Map<Seq<char>, TokenItemV>,
    active: Option<ClonePairV>,
    p: spec_fn(TokenItemV) -> bool,
    q: spec_fn(ClonePairV) -> bool,
)
    requires
        forall|k: Seq<char>| store.contains_key(k) ==> p(#[trigger] store[k]),
        forall|pos2: int| p(#[trigger] spec_window_item(tm, pos2)),
        forall|prior: TokenItemV, item: TokenItemV|
            p(prior) && p(item) ==> q(#[trigger] spec_open_clone(prior, item)),
        forall|c: ClonePairV, a: u32, b: u32| q(c) ==> q(#[trigger] spec_enlarge(c, a, b)),
        active matches Some(c) ==> q(c),
    ensures
        forall|k: Seq<char>|
            spec_detect(tm, pos, store, active).0.contains_key(k) ==> p(
                #[trigger] spec_detect(tm, pos, store, active).0[k],
            ),
        forall|i: int|
            0 <= i < spec_detect(tm, pos, store, active).1.len() ==> q(
                #[trigger] spec_detect(tm, pos, store, active).1[i],
            ),
    decreases spec_last_pos(tm) - pos,
{
    let item = spec_window_item(tm, pos);
    let done = pos >= spec_last_pos(tm);
    let res = spec_detect(tm, pos, store, active);
    assert(p(item));
    if store.contains_key(item.value.id) {
        let prior = store[item.value.id];
        let c = match active {
            None => spec_open_clone(prior, item),
            Some(c0) => c0,
        };
        assert(q(c));
        if done {
            assert(res.1 == seq![c]);
            assert forall|i: int| 0 <= i < res.1.len() implies q(res.1[i]) by {
                assert(res.1[i] == c);
            }
        } else {
            let act2 = Some(spec_enlarge(c, spec_end_hi(prior), spec_end_hi(item)));
            lemma_spec_detect_frame(tm, pos + 1, store, act2, p, q);
            assert(res == spec_detect(tm, pos + 1, store, act2));
        }
    } else {
        let emitted: Seq<ClonePairV> = match active {
            Some(c0) => seq![c0],
            None => seq![],
        };
        let store2 = store.insert(item.value.id, item);
        assert forall|k: Seq<char>| store2.contains_key(k) implies p(store2[k]) by {
            if k != item.value.id {
                assert(store.contains_key(k));
                assert(p(store[k]));
            }
        }
        assert forall|i: int| 0 <= i < emitted.len() implies q(emitted[i]) by {
            assert(emitted[i] == active->0);
        }
        if done {
            assert(res.0 == store2);
            assert(res.1 == emitted);
        } else {
            let r = spec_detect(tm, pos + 1, store2, None);
            lemma_spec_detect_frame(tm, pos + 1, store2, None, p, q);
            assert(res.0 == r.0);
            assert(res.1 == emitted + r.1);
            assert forall|i: int| 0 <= i < res.1.len() implies q(res.1[i]) by {
                if i < emitted.len() {
                    assert(res.1[i] == emitted[i]);
                } else {
                    assert(res.1[i] == r.1[i - emitted.len()]);
                }
            }
        }
    }
}

/// Partitioning: a detection run over a file of extension `e`, against a
/// store whose items all come from files of extension `e`, only emits clones
/// whose two locations both name sources of extension `e` — so a clone is
/// never reported between files of differing extensions.
pub proof fn lemma_detect_partitioned(
    tm: TokenMapV,
    pos: int,
    store: Map<Seq<char>, TokenItemV>,
    e: Seq<char>,
)
    requires
        ext_of(tm.source_id) == e,
        forall|k: Seq<char>|
            store.contains_key(k) ==> ext_of((#[trigger] store[k]).value.source_id) == e,
    ensures
        forall|k: Seq<char>|
            spec_detect(tm, pos, store, None).0.contains_key(k) ==> ext_of(
                (#[trigger] spec_detect(tm, pos, store, None).0[k]).value.source_id,
            ) == e,
        forall|i: int|
            0 <= i < spec_detect(tm, pos, store, None).1.len() ==> ext_of(
                (#[trigger] spec_detect(tm, pos, store, None).1[i]).duplication_a.source_id,
            ) == e && ext_of(
                spec_detect(tm, pos, store, None).1[i].duplication_b.source_id,
            ) == e,
{
    let p = |it: TokenItemV| ext_of(it.value.source_id) == e;
    let q = |c: ClonePairV| ext_of(c.duplication_a.source_id) == e && ext_of(
        c.duplication_b.source_id,
    ) == e;
    lemma_spec_detect_frame(tm, pos, store, None, p, q);
}

/// Merge correctness: over windows that all hit the store, a detection run
/// emits exactly one clone and stores nothing new — consecutive hits extend
/// one active span instead of reporting one clone per window — and that clone
/// stays anchored where it was opened: its start offsets and sources are
/// those of the active clone, or of the clone opened on the first hit.
pub proof fn lemma_consecutive_hits_merge(
    tm: TokenMapV,
    pos: int,
    store: Map<Seq<char>, TokenItemV>,
    active: Option<ClonePairV>,
)
    requires
        forall|p2: int|
            p2 >= pos ==> store.contains_key((#[trigger] spec_window_item(tm, p2)).value.id),
    ensures
        spec_detect(tm, pos, store, active).0 == store,
        spec_detect(tm, pos, store, active).1.len() == 1,
        ({
            let item = spec_window_item(tm, pos);
            let c0 = match active {
                None => spec_open_clone(store[item.value.id], item),
                Some(c) => c,
            };
            let emitted = spec_detect(tm, pos, store, active).1[0];
            &&& emitted.duplication_a.source_id == c0.duplication_a.source_id
            &&& emitted.duplication_a.lo == c0.duplication_a.lo
            &&& emitted.duplication_b.source_id == c0.duplication_b.source_id
            &&& emitted.duplication_b.lo == c0.duplication_b.lo
        }),
    decreases spec_last_pos(tm) - pos,
{
    let item = spec_window_item(tm, pos);
    let prior = store[item.value.id];
    let c = match active {
        None => spec_open_clone(prior, item),
        Some(c0) => c0,
    };
    if pos >= spec_last_pos(tm) {
        assert(spec_detect(tm, pos, store, active).1 == seq![c]);
    } else {
        lemma_consecutive_hits_merge(
            tm,
            pos + 1,
            store,
            Some(spec_enlarge(c, spec_end_hi(prior), spec_end_hi(item))),
        );
    }
}

/// A file that shares no window fingerprint with the store, and whose own
/// windows are pairwise distinct, yields no clones: every step is a miss, so
/// no clone is ever opened.
pub proof fn lemma_no_shared_windows_no_clones(
    tm: TokenMapV,
    pos: int,
    store: Map<Seq<char>, TokenItemV>,
)
    requires
        pos <= spec_last_pos(tm),
        forall|p2: int|
            pos <= p2 <= spec_last_pos(tm) ==> !store.contains_key(
                (#[trigger] spec_window_item(tm, p2)).value.id,
            ),
        forall|p2: int, p3: int|
            pos <= p2 < p3 <= spec_last_pos(tm) ==> (#[trigger] spec_window_item(tm, p2)).value.id
                != (#[trigger] spec_window_item(tm, p3)).value.id,
    ensures
        spec_detect(tm, pos, store, None).1 == Seq::<ClonePairV>::empty(),
    decreases spec_last_pos(tm) - pos,
{
    let item = spec_window_item(tm, pos);
    let store2 = store.insert(item.value.id, item);
    if pos < spec_last_pos(tm) {
        assert forall|p2: int|
            pos + 1 <= p2 <= spec_last_pos(tm) implies !store2.contains_key(
            (#[trigger] spec_window_item(tm, p2)).value.id,
        ) by {
            assert(spec_window_item(tm, p2).value.id != item.value.id);
        }
        lemma_no_shared_windows_no_clones(tm, pos + 1, store2);
        assert(spec_detect(tm, pos, store, None).1 =~= Seq::<ClonePairV>::empty() + spec_detect(
            tm,
            pos + 1,
            store2,
            None,
        ).1);
    }
}

/// Idempotence: a detection run is a function of the token stream and the
/// store it starts from, so re-running detection on an unchanged file set
/// yields an identical clone list.
pub proof fn lemma_detect_deterministic(
    tm1: TokenMapV,
    store1: Map<Seq<char>, TokenItemV>,
    tm2: TokenMapV,
    store2: Map<Seq<char>, TokenItemV>,
)
    requires
        tm1 == tm2,
        store1 == store2,
    ensures
        spec_detect(tm1, tm1.position as int, store1, None) == spec_detect(
            tm2,
            tm2.position as int,
            store2,
            None,
        ),
{
}

/// One partition's store, keyed by the extension it serves.
pub struct PartitionEntry {
    pub ext: String,
    pub store: TokenStore,
}

/// The map described by a sequence of partition entries, later entries
/// winning.
pub open spec fn partitions_map(s: Seq<PartitionEntry>) -> Map<
    Seq<char>,
    Map<Seq<char>, TokenItemV>,
>
    decreases s.len(),
{
    if s.len() == 0 {
        Map::empty()
    } else {
        partitions_map(s.drop_last()).insert(s.last().ext@, s.last().store@)
    }
}

/// Whether the entries serve pairwise distinct extensions.
pub open spec fn distinct_exts(s: Seq<PartitionEntry>) -> bool {
    forall|i: int, j: int| 0 <= i < j < s.len() ==> s[i].ext@ != s[j].ext@
}

proof fn lemma_partitions_map_absent(s: Seq<PartitionEntry>, e: Seq<char>)
    requires
        forall|i: int| 0 <= i < s.len() ==> s[i].ext@ != e,
    ensures
        !partitions_map(s).contains_key(e),
    decreases s.len(),
{
    if s.len() > 0 {
        lemma_partitions_map_absent(s.drop_last(), e);
    }
}

proof fn lemma_partitions_map_get(s: Seq<PartitionEntry>, i: int)
    requires
        distinct_exts(s),
        0 <= i < s.len(),
    ensures
        partitions_map(s).contains_key(s[i].ext@),
        partitions_map(s)[s[i].ext@] == s[i].store@,
    decreases s.len(),
{
    if i < s.len() - 1 {
        assert(s.drop_last()[i] == s[i]);
        lemma_partitions_map_get(s.drop_last(), i);
        assert(s[i].ext@ != s[s.len() - 1].ext@);
    }
}

proof fn lemma_partitions_map_remove(s: Seq<PartitionEntry>, i: int)
    requires
        distinct_exts(s),
        0 <= i < s.len(),
    ensures
        partitions_map(s.remove(i)) =~= partitions_map(s).remove(s[i].ext@),
    decreases s.len(),
{
    let e = s[i].ext@;
    if i == s.len() - 1 {
        assert(s.remove(i) =~= s.drop_last());
        assert forall|j: int| 0 <= j < s.drop_last().len() implies s.drop_last()[j].ext@ != e by {
            assert(s.drop_last()[j] == s[j]);
        }
        lemma_partitions_map_absent(s.drop_last(), e);
        assert(partitions_map(s.drop_last()).insert(e, s[i].store@).remove(e) =~= partitions_map(
            s.drop_last(),
        ));
    } else {
        assert(s.remove(i).drop_last() =~= s.drop_last().remove(i));
        assert(s.remove(i).last() == s.last());
        lemma_partitions_map_remove(s.drop_last(), i);
        assert(s.drop_last()[i] == s[i]);
        assert(s.last().ext@ != e);
    }
}

/// The configuration a detector is built from.
pub struct DetectorConfig {
    pub min_token: usize,
}

/// The detector: one fingerprint store per extension, the clones found so
/// far, and the window size.
pub struct Detector {
    stores: Vec<PartitionEntry>,
    pub clones: Vec<ClonePair>,
    pub min_token: usize,
}

impl Detector {
    /// The per-extension stores, as a map of maps.
    pub closed spec fn stores_map(&self) -> Map<Seq<char>, Map<Seq<char>, TokenItemV>> {
        partitions_map(self.stores@)
    }

    /// The clones found so far.
    pub closed spec fn spec_clones(&self) -> Seq<ClonePair> {
        self.clones@
    }

    /// The configured window size.
    pub closed spec fn spec_min_token(&self) -> usize {
        self.min_token
    }

    /// The stores' invariant: one entry per extension; each store well
    /// formed, its items carrying end spans and coming from files of the
    /// extension it is keyed by.
    pub closed spec fn stores_wf(&self) -> bool {
        &&& distinct_exts(self.stores@)
        &&& forall|i: int|
            0 <= i < self.stores@.len() ==> (#[trigger] self.stores@[i]).store.wf()
        &&& forall|i: int|
            0 <= i < self.stores@.len() ==> store_items_end_some(
                (#[trigger] self.stores@[i]).store@,
            )
        &&& forall|i: int, k: Seq<char>|
            0 <= i < self.stores@.len() && #[trigger] self.stores@[i].store@.contains_key(k)
                ==> ext_of(self.stores@[i].store@[k].value.source_id) == self.stores@[i].ext@
    }

    /// A fresh detector with the given window size.
    pub fn new(config: DetectorConfig) -> (r: Detector)
        ensures
            r.stores_wf(),
            r.stores_map() == Map::<Seq<char>, Map<Seq<char>, TokenItemV>>::empty(),
            r.spec_clones() == Seq::<ClonePair>::empty(),
            r.spec_min_token() == config.min_token,
    {
        let r = Detector { stores: Vec::new(), clones: Vec::new(), min_token: config.min_token };
        proof {
            assert(r.stores_map() =~= Map::<Seq<char>, Map<Seq<char>, TokenItemV>>::empty());
            assert(r.spec_clones() =~= Seq::<ClonePair>::empty());
        }
        r
    }

    /// The index of the partition entry serving `ext`, if any.
    fn find_partition(&self, ext: &String) -> (r: Option<usize>)
        requires
            self.stores_wf(),
        ensures
            match r {
                Some(i) => i < self.stores@.len() && self.stores@[i as int].ext@ == ext@,
                None => !self.stores_map().contains_key(ext@),
            },
    {
        let mut i: usize = 0;
        while i < self.stores.len()
            invariant
                i <= self.stores@.len(),
                forall|j: int| 0 <= j < i ==> self.stores@[j].ext@ != ext@,
            decreases self.stores@.len() - i,
        {
            if self.stores[i].ext == *ext {
                return Some(i);
            }
            i = i + 1;
        }
        proof {
            lemma_partitions_map_absent(self.stores@, ext@);
        }
        None
    }

    /// Run clone detection over one file's token stream.
    ///
    /// The file's hash string is built, the file is assigned to the partition
    /// of its extension, and the merge state machine runs against that
    /// partition's store: the store afterwards and the clones appended are
    /// exactly what [`spec_detect`] states from start position `0`. Every
    /// clone appended pairs the file with a prior occurrence of the same
    /// extension.
    pub fn detect_tokens(&mut self, source_id: String, tokens: Vec<Token>)
        requires
            old(self).stores_wf(),
            32 * tokens@.len() <= usize::MAX,
            old(self).spec_min_token() < usize::MAX,
        ensures
            final(self).stores_wf(),
            final(self).spec_min_token() == old(self).spec_min_token(),
            ({
                let tmv = TokenMapV {
                    tokens: tokens@.map_values(|t: Token| t@),
                    hash_str: spec_hash_concat(tokens@.map_values(|t: Token| t@)),
                    source_id: source_id@,
                    position: 0,
                    min_token: old(self).spec_min_token(),
                };
                let ext = ext_of(source_id@);
                let prior = if old(self).stores_map().contains_key(ext) {
                    old(self).stores_map()[ext]
                } else {
                    Map::<Seq<char>, TokenItemV>::empty()
                };
                let r = if tokens@.len() == 0 {
                    (prior, Seq::<ClonePairV>::empty())
                } else {
                    spec_detect(tmv, 0, prior, None)
                };
                &&& final(self).stores_map() == old(self).stores_map().insert(ext, r.0)
                &&& clones_view(final(self).spec_clones()) == clones_view(old(self).spec_clones())
                    + r.1
            }),
            final(self).spec_clones().len() >= old(self).spec_clones().len(),
            forall|i: int|
                old(self).spec_clones().len() <= i < final(self).spec_clones().len() ==> ext_of(
                    (#[trigger] final(self).spec_clones()[i])@.duplication_a.source_id,
                ) == ext_of(source_id@) && ext_of(
                    final(self).spec_clones()[i]@.duplication_b.source_id,
                ) == ext_of(source_id@),
    {
        let ghost clones_pre = self.clones@;
        let hash_str = build_hash_str(&tokens);
        let ext = extension_of(source_id.as_str());
        let ghost extv = ext@;
        let mut tokenmap = TokenMap {
            tokens,
            hash_str,
            source_id,
            position: 0,
            min_token: self.min_token,
        };
        let ghost tmv = tokenmap@;
        let ghost stores_pre = self.stores@;
        let mut entry = match self.find_partition(&ext) {
            Some(i) => {
                proof {
                    lemma_partitions_map_get(stores_pre, i as int);
                    lemma_partitions_map_remove(stores_pre, i as int);
                }
                let e = self.stores.remove(i);
                proof {
                    assert forall|a: int, b: int|
                        0 <= a < b < self.stores@.len() implies self.stores@[a].ext@
                        != self.stores@[b].ext@ by {
                        let a0 = if a < i { a } else { a + 1 };
                        let b0 = if b < i { b } else { b + 1 };
                        assert(self.stores@[a] == stores_pre[a0]);
                        assert(self.stores@[b] == stores_pre[b0]);
                    }
                }
                e
            },
            None => PartitionEntry { ext, store: TokenStore::new() },
        };
        let ghost prior = entry.store@;
        proof {
            if !partitions_map(stores_pre).contains_key(extv) {
                assert(prior =~= Map::<Seq<char>, TokenItemV>::empty());
            }
        }
        detect(&mut tokenmap, &mut entry.store, &mut self.clones);
        proof {
            if tmv.tokens.len() > 0 {
                lemma_detect_partitioned(tmv, 0, prior, extv);
            }
        }
        let ghost stores_mid = self.stores@;
        self.stores.push(entry);
        proof {
            assert(self.stores@.drop_last() =~= stores_mid);
            assert forall|j: int| 0 <= j < stores_mid.len() implies stores_mid[j].ext@ != extv by {
                lemma_partitions_map_get(stores_mid, j);
            }
            assert(self.stores_map() =~= partitions_map(stores_pre).insert(
                extv,
                self.stores@.last().store@,
            ));
            if tmv.tokens.len() == 0 {
                assert(clones_view(self.clones@) =~= clones_view(clones_pre)
                    + Seq::<ClonePairV>::empty());
            }
            let r1: Seq<ClonePairV> = if tmv.tokens.len() == 0 {
                Seq::<ClonePairV>::empty()
            } else {
                spec_detect(tmv, 0, prior, None).1
            };
            assert(clones_view(self.clones@) == clones_view(clones_pre) + r1);
            assert(clones_view(self.clones@).len() == self.clones@.len());
            assert(clones_view(clones_pre).len() == clones_pre.len());
            assert forall|i: int| clones_pre.len() <= i < self.clones@.len() implies ext_of(
                (#[trigger] self.clones@[i])@.duplication_a.source_id,
            ) == extv && ext_of(self.clones@[i]@.duplication_b.source_id) == extv by {
                assert(clones_view(self.clones@)[i] == self.clones@[i]@);
                assert(clones_view(self.clones@)[i] == r1[i - clones_pre.len()]);
            }
        }
    }
}

impl Default for Detector {
    /// A fresh detector with the default window size of 50 tokens.
    fn default() -> (r: Detector)
        ensures
            r.stores_wf(),
            r.stores_map() == Map::<Seq<char>, Map<Seq<char>, TokenItemV>>::empty(),
            r.spec_clones() == Seq::<ClonePair>::empty(),
            r.spec_min_token() == 50,
    {
        Detector::new(DetectorConfig { min_token: 50 })
    }
}

} // verus!
